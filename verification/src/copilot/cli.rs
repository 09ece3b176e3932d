//! Session logs of the Copilot CLI.
//!
//! A log has one JSON event a line; a legacy session or a checkpoint is one
//! JSON document. Conversation events have a `role`, or a type that names the
//! user or the assistant.
use crate::content;
use crate::copilot;
use crate::copilot::chat;
use crate::copilot::{CopilotConnector, SessionError};
use crate::disk::Disk;
use crate::document;
use crate::json;
use crate::json::{Json, Tree};
use crate::paths;
use crate::paths::FilePath;
use crate::text;
use crate::timeline;
use crate::types;
use crate::types::{ConversationView, MessageView, NormalizedConversation, NormalizedMessage};
use vstd::prelude::*;

verus! {

/// Whether a path looks like a log of the CLI, given its text in lower case.
pub open spec fn cli_look(path: Seq<Seq<char>>, lower: Seq<char>) -> bool {
    ||| paths::extension_of(path) == Some("jsonl"@)
    ||| paths::name_of(path) == Some("events.jsonl"@)
    ||| text::occurs(lower, "session-state"@)
    ||| text::occurs(lower, "history-session-state"@)
}

/// The role that the type of an event names, given it in lower case.
pub open spec fn role_in_type(lower: Seq<char>) -> Option<Seq<char>> {
    if text::occurs(lower, "user"@) || lower == "userpromptsubmitted"@ || lower == "prompt"@ {
        Some("user"@)
    } else if text::occurs(lower, "assistant"@) || lower == "assistantresponse"@ || lower
        == "response"@ || lower == "completion"@ {
        Some("assistant"@)
    } else {
        None
    }
}

/// The role of an event: its explicit `role`, where only the user's is told
/// from the rest, or that which its type names.
pub open spec fn event_role(event: Tree, lower: Seq<char>) -> Option<Seq<char>> {
    match event.text_at("role"@) {
        Some(role) => if role == "user"@ || role == "human"@ {
            Some("user"@)
        } else {
            Some("assistant"@)
        },
        None => role_in_type(lower),
    }
}

/// The text of the content that may be absent.
pub open spec fn flat_in(value: Option<Tree>) -> Seq<char> {
    match value {
        Some(inner) => content::flat(inner),
        None => Seq::empty(),
    }
}

/// What an event says: its message or, where that is blank, its prompt or its
/// output.
pub open spec fn event_text(event: Tree) -> Seq<char> {
    let said = chat::message_text(event);
    if text::is_blank(said) {
        text::filled_or(
            flat_in(event.field_or("prompt"@, "initialPrompt"@)),
            text::filled_or(flat_in(event.field_or("output"@, "result"@)), said),
        )
    } else {
        said
    }
}

/// The role and the text of an event. Without a role both are empty.
pub open spec fn event_message(event: Tree, lower: Seq<char>) -> (Seq<char>, Seq<char>) {
    match event_role(event, lower) {
        Some(role) => (role, event_text(event)),
        None => (Seq::empty(), Seq::empty()),
    }
}

/// The type of an event, in lower case.
pub open spec fn lower_type(event: Tree) -> Seq<char> {
    match event.text_at("type"@) {
        Some(kind) => text::lowered(kind),
        None => text::lowered(""@),
    }
}

/// The message that an event is, if it has a role and says anything.
pub open spec fn event_messages(event: Tree) -> Seq<MessageView> {
    let (role, said) = event_message(event, lower_type(event));
    if role.len() == 0 || text::is_blank(said) {
        Seq::empty()
    } else {
        seq![
            types::draft(
                role,
                Some(chat::author_of(role)),
                chat::turn_stamp(event),
                said,
                event,
                Seq::empty(),
            ),
        ]
    }
}

/// The messages among some events.
pub open spec fn events_messages(events: Seq<Tree>) -> Seq<MessageView>
    decreases events.len(),
{
    if events.len() == 0 {
        Seq::empty()
    } else {
        events_messages(events.drop_last()) + event_messages(events.last())
    }
}

/// The times of some events.
pub open spec fn events_stamps(events: Seq<Tree>) -> Seq<Option<i64>> {
    events.map_values(|event: Tree| chat::turn_stamp(event))
}

/// The session that an event names.
pub open spec fn event_session(event: Tree) -> Option<Seq<char>> {
    json::text_in(event.field_or("session_id"@, "sessionId"@))
}

/// The working directory that an event names.
pub open spec fn event_workspace(event: Tree) -> Option<Seq<char>> {
    json::text_in(event.field_or_or("cwd"@, "workingDirectory"@, "workspace"@))
}

/// The session that the first event to do so names.
pub open spec fn events_session(events: Seq<Tree>) -> Option<Seq<char>>
    decreases events.len(),
{
    if events.len() == 0 {
        None
    } else {
        text::text_or(events_session(events.drop_last()), event_session(events.last()))
    }
}

/// The working directory that the first event to do so names.
pub open spec fn events_workspace(events: Seq<Tree>) -> Option<Seq<char>>
    decreases events.len(),
{
    if events.len() == 0 {
        None
    } else {
        text::text_or(events_workspace(events.drop_last()), event_workspace(events.last()))
    }
}

/// The conversation that some events are, if one of them is a message. Its
/// bounds in time are those of all the events.
pub open spec fn events_conversation(
    events: Seq<Tree>,
    external_id: Option<Seq<char>>,
    workspace: Option<Seq<char>>,
    path: Seq<Seq<char>>,
) -> Seq<ConversationView> {
    let messages = events_messages(events);
    if messages.len() == 0 {
        Seq::empty()
    } else {
        seq![
            ConversationView {
                agent_slug: "copilot"@,
                external_id,
                title: types::user_title(messages),
                workspace,
                source_path: path,
                started_at: timeline::earliest(events_stamps(events)),
                ended_at: timeline::latest(events_stamps(events)),
                metadata: chat::source_metadata("copilot-cli"@),
                messages: types::numbered(messages),
            },
        ]
    }
}

/// The conversations of a session document of the CLI. One with `turns`,
/// `messages`, `conversations` or a `conversation` array is a chat; else its
/// `events`, or its `history`, are those of a log.
pub open spec fn session_document(value: Tree, path: Seq<Seq<char>>) -> Seq<ConversationView> {
    if value.field("turns"@) is Some || value.field("messages"@) is Some || value.field(
        "conversations"@,
    ) is Some || value.items_at("conversation"@) is Some {
        chat::chat_style(value, path)
    } else {
        let listed = if value.items_at("events"@) is Some {
            value.items_at("events"@)
        } else {
            value.items_at("history"@)
        };
        match listed {
            None => chat::chat_style(value, path),
            Some(events) => events_conversation(
                events,
                text::text_or(
                    json::text_in(value.field_or_or("session_id"@, "sessionId"@, "id"@)),
                    paths::stem_of(path),
                ),
                json::text_in(
                    if value.field("cwd"@) is Some {
                        value.field("cwd"@)
                    } else {
                        value.field_or_or("workingDirectory"@, "workspace"@, "workspacePath"@)
                    },
                ),
                path,
            ),
        }
    }
}

/// The events of a log: the lines that are JSON documents.
pub open spec fn log_events(said: Seq<char>) -> Seq<Tree> {
    document::read_ones(document::line_documents(text::content_lines(said)))
}

/// The conversation of the events of a log. The session is named by an event or
/// else by the directory that holds the log.
pub open spec fn log_conversation(events: Seq<Tree>, path: Seq<Seq<char>>) -> Seq<
    ConversationView,
> {
    events_conversation(
        events,
        text::text_or(events_session(events), paths::name_in(paths::parent_of(path))),
        events_workspace(events),
        path,
    )
}

/// Whether a text looks like a single JSON document.
pub open spec fn document_look(said: Seq<char>) -> bool {
    let start = text::trimmed_start(said);
    start.len() > 0 && (start[0] == '{' || start[0] == '[')
}

/// The conversations of a log of the CLI, given its text if it has one.
pub open spec fn cli_file(said: Option<Seq<char>>, path: Seq<Seq<char>>) -> Result<
    Seq<ConversationView>,
    SessionError,
> {
    match said {
        None => Err(SessionError::Unreadable),
        Some(inner) => if !paths::lines_look(path) && document_look(inner) && document::json_document(
            inner,
        ) is Some {
            Ok(session_document(document::json_document(inner)->Some_0, path))
        } else {
            Ok(log_conversation(log_events(inner), path))
        },
    }
}

/// Whether a text looks like a single JSON document.
fn looks_like_document(said: &str) -> (yes: bool)
    ensures
        yes == document_look(said@),
{
    let chars = text::chars_of(said);
    let mut at: usize = 0;
    while at < chars.len() && text::white(chars[at])
        invariant
            at <= chars.len(),
            forall|j: int| 0 <= j < at ==> text::is_white(#[trigger] chars@[j]),
        decreases chars.len() - at,
    {
        at += 1;
    }
    proof {
        text::lemma_trimmed_start(said@, at as int);
    }
    at < chars.len() && (chars[at] == '{' || chars[at] == '[')
}

impl CopilotConnector {
    /// Whether a path looks like a log of the CLI, given its text in lower case.
    pub fn is_cli_event_log_in(path: &FilePath, lower: &str) -> (yes: bool)
        ensures
            yes == cli_look(path@, lower@),
    {
        if let Some(extension) = path.extension() {
            if text::same_text(extension.as_str(), "jsonl") {
                return true;
            }
        }
        path.is_named("events.jsonl") || text::contains(lower, "session-state") || text::contains(
            lower,
            "history-session-state",
        )
    }

    /// Whether a path looks like a log of the CLI.
    pub fn is_cli_event_log(path: &FilePath) -> (yes: bool)
        ensures
            yes == cli_look(path@, text::lowered(paths::rendered(path@))),
    {
        let whole = path.to_text();
        let lower = text::lowercase(whole.as_str());
        Self::is_cli_event_log_in(path, lower.as_str())
    }

    /// The role and the text of an event, given its type in lower case.
    pub fn cli_event_message_in(event: &Json, lower: &str) -> (message: (String, String))
        ensures
            (message.0@, message.1@) == event_message(event@, lower@),
    {
        let from_type = if text::contains(lower, "user") || text::same_text(
            lower,
            "userpromptsubmitted",
        ) || text::same_text(lower, "prompt") {
            Some("user")
        } else if text::contains(lower, "assistant") || text::same_text(lower, "assistantresponse")
            || text::same_text(lower, "response") || text::same_text(lower, "completion") {
            Some("assistant")
        } else {
            None
        };
        let role = match event.str_at("role") {
            Some(role) => if text::same_text(role, "user") || text::same_text(role, "human") {
                Some("user")
            } else {
                Some("assistant")
            },
            None => from_type,
        };
        let role = match role {
            Some(role) => role.to_owned(),
            None => {
                return (String::new(), String::new());
            },
        };
        let said = Self::extract_message_content(event);
        if text::blank(said.as_str()) {
            if let Some(prompt) = event.get_or("prompt", "initialPrompt") {
                let other = content::flatten_content(prompt);
                if !other.as_str().is_empty() {
                    return (role, other);
                }
            }
            if let Some(output) = event.get_or("output", "result") {
                let other = content::flatten_content(output);
                if !other.as_str().is_empty() {
                    return (role, other);
                }
            }
        }
        (role, said)
    }

    /// The role and the text of an event of a type.
    pub fn extract_cli_event_message(event: &Json, event_type: &str) -> (message: (String, String))
        ensures
            (message.0@, message.1@) == event_message(event@, text::lowered(event_type@)),
    {
        let lower = text::lowercase(event_type);
        Self::cli_event_message_in(event, lower.as_str())
    }

    /// Adds the message that an event is.
    fn add_event(
        messages: &mut Vec<NormalizedMessage>,
        event: &Json,
        Ghost(drafts): Ghost<Seq<MessageView>>,
    )
        requires
            types::messages_of(old(messages)@) == types::numbered(drafts),
        ensures
            types::messages_of(final(messages)@) == types::numbered(
                drafts + event_messages(event@),
            ),
    {
        broadcast use types::lemma_numbered_push;

        let ghost more = event_messages(event@);
        let kind = match event.str_at("type") {
            Some(kind) => kind,
            None => "",
        };
        let (role, said) = Self::extract_cli_event_message(event, kind);
        if role.as_str().is_empty() || text::blank(said.as_str()) {
            assert(drafts + more =~= drafts);
            return;
        }
        let author = if text::same_text(role.as_str(), "user") {
            "user"
        } else {
            "copilot"
        };
        let at = Self::extract_turn_timestamp(event);
        let none = Vec::new();
        assert(types::invocations_of(none@) =~= Seq::empty());
        assert(drafts + more =~= drafts.push(more[0]));
        types::add_message(
            messages,
            role.as_str(),
            Some(author),
            at,
            said,
            event.copy(),
            none,
        );
    }

    /// The conversation that some events are.
    fn parse_events(
        events: &Vec<Json>,
        external_id: Option<String>,
        workspace: Option<String>,
        path: &FilePath,
    ) -> (out: Vec<NormalizedConversation>)
        ensures
            types::conversations_of(out@) == events_conversation(
                json::trees_of(events@),
                text::held(external_id),
                text::held(workspace),
                path@,
            ),
    {
        broadcast use json::group_trees, types::lemma_conversations_push;

        let ghost trees = json::trees_of(events@);
        let mut messages: Vec<NormalizedMessage> = Vec::new();
        let mut started_at: Option<i64> = None;
        let mut ended_at: Option<i64> = None;
        let mut i: usize = 0;
        assert(types::messages_of(messages@) =~= types::numbered(events_messages(trees.take(0))));
        assert(events_stamps(trees.take(0)) =~= Seq::empty());
        while i < events.len()
            invariant
                i <= events.len(),
                trees == json::trees_of(events@),
                types::messages_of(messages@) == types::numbered(
                    events_messages(trees.take(i as int)),
                ),
                started_at == timeline::earliest(events_stamps(trees.take(i as int))),
                ended_at == timeline::latest(events_stamps(trees.take(i as int))),
            decreases events.len() - i,
        {
            let event = &events[i];
            let at = Self::extract_turn_timestamp(event);
            proof {
                assert(trees.take(i + 1).drop_last() =~= trees.take(i as int));
                assert(trees.take(i + 1).last() == event@);
                timeline::lemma_bounds_push(events_stamps(trees.take(i as int)), at);
                assert(events_stamps(trees.take(i + 1)) =~= events_stamps(
                    trees.take(i as int),
                ).push(at));
            }
            started_at = timeline::min_timestamp(started_at, at);
            ended_at = timeline::max_timestamp(ended_at, at);
            Self::add_event(&mut messages, event, Ghost(events_messages(trees.take(i as int))));
            i += 1;
        }
        assert(trees.take(i as int) =~= trees);
        let ghost drafts = events_messages(trees);
        assert(types::messages_of(messages@).len() == drafts.len());
        let mut out: Vec<NormalizedConversation> = Vec::new();
        assert(types::conversations_of(out@) =~= Seq::empty());
        if messages.len() == 0 {
            return out;
        }
        proof {
            types::lemma_numbered_stamps(drafts);
        }
        let title = types::title_of(&messages);
        out.push(
            NormalizedConversation {
                agent_slug: "copilot".to_owned(),
                external_id,
                title,
                workspace,
                source_path: path.copy(),
                started_at,
                ended_at,
                metadata: chat::text_object("source", "copilot-cli"),
                messages,
            },
        );
        assert(types::conversations_of(out@) =~= events_conversation(
            trees,
            text::held(external_id),
            text::held(workspace),
            path@,
        ));
        out
    }

    /// The conversations of a legacy session or a checkpoint, which is one JSON
    /// document.
    pub fn parse_cli_session_json(value: &Json, path: &FilePath) -> (out: Vec<
        NormalizedConversation,
    >)
        ensures
            types::conversations_of(out@) == session_document(value@, path@),
    {
        if value.get("turns").is_some() || value.get("messages").is_some() || value.get(
            "conversations",
        ).is_some() || value.array_at("conversation").is_some() {
            return Self::parse_conversation_file_from_value(value, path);
        }
        let listed = match value.array_at("events") {
            Some(events) => Some(events),
            None => value.array_at("history"),
        };
        let events = match listed {
            Some(events) => events,
            None => {
                return Self::parse_conversation_file_from_value(value, path);
            },
        };
        let session_id = match content::string_in(
            value.get_or_or("session_id", "sessionId", "id"),
        ) {
            Some(id) => Some(id),
            None => path.file_stem(),
        };
        let place = match value.get("cwd") {
            Some(cwd) => Some(cwd),
            None => value.get_or_or("workingDirectory", "workspace", "workspacePath"),
        };
        let workspace = content::string_in(place);
        Self::parse_events(events, session_id, workspace, path)
    }

    /// The conversation of the events of a log.
    pub fn parse_cli_events(events: &Vec<Json>, path: &FilePath) -> (out: Vec<
        NormalizedConversation,
    >)
        ensures
            types::conversations_of(out@) == log_conversation(json::trees_of(events@), path@),
    {
        broadcast use json::group_trees;

        let ghost trees = json::trees_of(events@);
        let mut session_id: Option<String> = None;
        let mut workspace: Option<String> = None;
        let mut i: usize = 0;
        while i < events.len()
            invariant
                i <= events.len(),
                trees == json::trees_of(events@),
                text::held(session_id) == events_session(trees.take(i as int)),
                text::held(workspace) == events_workspace(trees.take(i as int)),
            decreases events.len() - i,
        {
            let event = &events[i];
            assert(trees.take(i + 1).drop_last() =~= trees.take(i as int));
            assert(trees.take(i + 1).last() == event@);
            if session_id.is_none() {
                session_id = content::string_in(event.get_or("session_id", "sessionId"));
            }
            if workspace.is_none() {
                workspace = content::string_in(
                    event.get_or_or("cwd", "workingDirectory", "workspace"),
                );
            }
            i += 1;
        }
        assert(trees.take(i as int) =~= trees);
        let external_id = match session_id {
            Some(id) => Some(id),
            None => match path.parent() {
                Some(parent) => match parent.file_name() {
                    Some(name) => Some(name.to_owned()),
                    None => None,
                },
                None => None,
            },
        };
        Self::parse_events(events, external_id, workspace, path)
    }

    /// The conversations of a log of the CLI.
    pub fn parse_cli_event_log(path: &FilePath, disk: &Disk) -> (outcome: Result<
        Vec<NormalizedConversation>,
        SessionError,
    >)
        ensures
            copilot::seen_outcome(outcome) == cli_file(disk@.text(path@), path@),
    {
        let said = match disk.text(path) {
            Some(said) => said,
            None => {
                return Err(SessionError::Unreadable);
            },
        };
        if !path.has_lines_extension() && looks_like_document(said.as_str()) {
            if let Some(value) = document::parse_json(said.as_str()) {
                return Ok(Self::parse_cli_session_json(&value, path));
            }
        }
        let lines = text::trimmed_lines(said.as_str());
        let events = document::parse_lines(&lines);
        Ok(Self::parse_cli_events(&events, path))
    }
}

} // verus!
