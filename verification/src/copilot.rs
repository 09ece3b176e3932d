//! Connector for GitHub Copilot Chat session logs.
//!
//! VS Code has used three native persistence generations for Copilot-backed
//! chat sessions:
//! - `state.vscdb`, key `interactive.sessions`
//! - `workspaceStorage/<id>/chatSessions/*.json`
//! - the same session directory with append-only `.jsonl` logs
//!
//! Empty-window sessions live under User-level global storage. The connector
//! scans Code, Code - Insiders, and VSCodium roots on Linux, macOS, and Windows,
//! and filters the shared native store to Copilot-owned sessions. Converted
//! exports under `globalStorage/github.copilot-chat` are read too, and so are
//! the session logs of the Copilot CLI under `~/.copilot`.
use crate::types;
use crate::types::{ConversationView, NormalizedConversation};
use crate::vscode_chat::ReplayError;
use vstd::prelude::*;

pub mod chat;
pub mod cli;
pub mod uri;
pub mod native;
pub mod roots;
pub mod sweep;
pub mod laws;

verus! {

/// The connector.
#[derive(Clone, Copy, Debug)]
pub struct CopilotConnector;

impl Default for CopilotConnector {
    fn default() -> (connector: CopilotConnector)
        ensures
            connector == CopilotConnector,
    {
        CopilotConnector::new()
    }
}

/// Why a file yields no conversations.
#[derive(Clone, Copy, Debug, PartialEq, Eq, Structural)]
pub enum SessionError {
    /// It could not be read as text, or as a database.
    Unreadable,
    /// It is no JSON document.
    NotJson,
    /// Its operation log is rejected.
    Replay(ReplayError),
}

/// What the outcome of reading a file says.
pub open spec fn seen_outcome(outcome: Result<Vec<NormalizedConversation>, SessionError>) -> Result<
    Seq<ConversationView>,
    SessionError,
> {
    match outcome {
        Ok(list) => Ok(types::conversations_of(list@)),
        Err(error) => Err(error),
    }
}

impl CopilotConnector {
    /// The connector.
    #[must_use]
    pub fn new() -> (connector: CopilotConnector)
        ensures
            connector == CopilotConnector,
    {
        CopilotConnector
    }
}

} // verus!
