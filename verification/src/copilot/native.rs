//! Chat sessions as VS Code itself stores them.
//!
//! The store is shared by all chat providers. A session counts only with
//! evidence that it is Copilot's: the name of the responder, or an agent of one
//! of its requests.
use crate::content;
use crate::copilot;
use crate::copilot::chat;
use crate::copilot::uri;
use crate::copilot::{CopilotConnector, SessionError};
use crate::disk::{Disk, DiskView};
use crate::document;
use crate::json;
use crate::json::{Json, Member, Tree};
use crate::paths;
use crate::paths::FilePath;
use crate::text;
use crate::timeline;
use crate::types;
use crate::types::{
    ConversationView, InvocationView, MessageView, NormalizedConversation, NormalizedInvocation,
    NormalizedMessage,
};
use crate::vscode_chat;
use vstd::prelude::*;

verus! {

/// The text of a value of a chat session: itself, its `text`, or its `parts`.
pub open spec fn value_text(value: Tree) -> Option<Seq<char>> {
    if value.text() is Some {
        value.text()
    } else if value.text_at("text"@) is Some {
        value.text_at("text"@)
    } else if content::flat_at(value, "parts"@).len() > 0 {
        Some(content::flat_at(value, "parts"@))
    } else {
        None
    }
}

/// Whether a name is Copilot's, in any case.
pub open spec fn copilot_name(name: Seq<char>) -> bool {
    let lower = text::ascii_lowered(name);
    ||| lower == "github.copilot-chat"@
    ||| lower == "github copilot"@
    ||| lower == "github-copilot"@
    ||| text::occurs(lower, "github.copilot-chat"@)
    ||| text::occurs(lower, "github copilot"@)
}

/// Whether a value names Copilot. A value wrapped in `value` fields is looked up
/// inside them.
pub open spec fn names_copilot(value: Tree) -> bool
    decreases value,
{
    match value {
        Tree::Object(fields) => if fields.contains_key("value"@) {
            names_copilot(fields["value"@])
        } else {
            false
        },
        Tree::Text(name) => copilot_name(name),
        _ => false,
    }
}

/// Whether a value that may be absent names Copilot.
pub open spec fn names_copilot_in(value: Option<Tree>) -> bool {
    value matches Some(inner) && names_copilot(inner)
}

/// Whether an agent is Copilot's.
pub open spec fn copilot_agent(agent: Tree) -> bool {
    ||| names_copilot(agent)
    ||| names_copilot_in(agent.field("id"@))
    ||| names_copilot_in(agent.field("name"@))
    ||| names_copilot_in(agent.field("displayName"@))
    ||| names_copilot_in(agent.field("extensionId"@))
    ||| names_copilot_in(agent.field("publisher"@))
}

/// Whether a request went to an agent of Copilot.
pub open spec fn copilot_request(request: Tree) -> bool {
    request.field("agent"@) matches Some(agent) && copilot_agent(agent)
}

/// Whether one of some requests went to an agent of Copilot.
pub open spec fn any_copilot_request(requests: Seq<Tree>) -> bool {
    exists|i: int| 0 <= i < requests.len() && copilot_request(#[trigger] requests[i])
}

/// Whether a session shows that it is Copilot's.
pub open spec fn copilot_session(session: Tree) -> bool {
    ||| names_copilot_in(session.field("responderUsername"@))
    ||| any_copilot_request(json::items_or_none(session.items_at("requests"@)))
}

/// What one part of a response says, unless it is blank.
pub open spec fn part_said(part: Tree) -> Option<Seq<char>> {
    let said = if part.text_at("kind"@) == Some("markdownContent"@) {
        match part.field("content"@) {
            Some(inner) => value_text(inner),
            None => None,
        }
    } else {
        value_text(part)
    };
    match said {
        Some(inner) => if text::is_blank(inner) {
            None
        } else {
            Some(inner)
        },
        None => None,
    }
}

/// What the parts of a response say.
pub open spec fn parts_said(parts: Seq<Tree>) -> Seq<Seq<char>>
    decreases parts.len(),
{
    if parts.len() == 0 {
        Seq::empty()
    } else {
        let before = parts_said(parts.drop_last());
        match part_said(parts.last()) {
            Some(said) => before.push(said),
            None => before,
        }
    }
}

/// The tool call that a part of a response records.
pub open spec fn part_call(part: Tree) -> Option<InvocationView> {
    if part.text_at("kind"@) == Some("toolInvocationSerialized"@) {
        match json::text_in(part.field_or_or("toolId"@, "toolName"@, "name"@)) {
            Some(name) => Some(
                InvocationView {
                    kind: "tool"@,
                    name,
                    raw_name: None,
                    call_id: json::text_in(part.field_or("toolCallId"@, "callId"@)),
                    arguments: part.field_or("arguments"@, "parameters"@),
                },
            ),
            None => None,
        }
    } else {
        None
    }
}

/// The tool calls that the parts of a response record.
pub open spec fn parts_calls(parts: Seq<Tree>) -> Seq<InvocationView>
    decreases parts.len(),
{
    if parts.len() == 0 {
        Seq::empty()
    } else {
        let before = parts_calls(parts.drop_last());
        match part_call(parts.last()) {
            Some(call) => before.push(call),
            None => before,
        }
    }
}

/// The parts of a response, which may be one value.
pub open spec fn parts_of(response: Tree) -> Seq<Tree> {
    match response.items() {
        Some(parts) => parts,
        None => seq![response],
    }
}

/// What a response says: its parts, with a line feed between each two.
pub open spec fn response_text(response: Tree) -> Seq<char> {
    text::joined(parts_said(parts_of(response)))
}

/// The tools that a response calls: those of its content blocks, then those
/// that its parts record.
pub open spec fn response_calls(response: Tree) -> Seq<InvocationView> {
    content::content_calls(response) + parts_calls(parts_of(response))
}

/// What the user of a request says.
pub open spec fn request_text(request: Tree, message: Tree) -> Seq<char> {
    match value_text(message) {
        Some(said) => said,
        None => chat::message_text(request),
    }
}

/// The user's message of a request, unless it is blank.
pub open spec fn asked(request: Tree) -> Seq<MessageView> {
    match request.field("message"@) {
        Some(message) => {
            let said = request_text(request, message);
            if text::is_blank(said) {
                Seq::empty()
            } else {
                seq![
                    types::draft(
                        "user"@,
                        Some("user"@),
                        content::stamp_at(request, "timestamp"@),
                        said,
                        request,
                        Seq::empty(),
                    ),
                ]
            }
        },
        None => Seq::empty(),
    }
}

/// The time of the response to a request.
pub open spec fn response_stamp(request: Tree, response: Tree) -> Option<i64> {
    content::stamp_in(
        if request.field("responseTimestamp"@) is Some {
            request.field("responseTimestamp"@)
        } else {
            response.field("timestamp"@)
        },
    )
}

/// Copilot's message of a request, if it says anything or calls a tool.
pub open spec fn answered(request: Tree) -> Seq<MessageView> {
    match (request.field("message"@), request.field("response"@)) {
        (Some(_), Some(response)) => if text::is_blank(response_text(response)) && response_calls(
            response,
        ).len() == 0 {
            Seq::empty()
        } else {
            seq![
                types::draft(
                    "assistant"@,
                    Some("copilot"@),
                    response_stamp(request, response),
                    response_text(response),
                    response,
                    response_calls(response),
                ),
            ]
        },
        _ => Seq::empty(),
    }
}

/// The time of the response to a request that has a message, whether the
/// response says anything or not.
pub open spec fn answer_stamps(request: Tree) -> Seq<Option<i64>> {
    match (request.field("message"@), request.field("response"@)) {
        (Some(_), Some(response)) => seq![response_stamp(request, response)],
        _ => Seq::empty(),
    }
}

/// The messages of some requests. One without a message is passed over.
pub open spec fn requests_messages(requests: Seq<Tree>) -> Seq<MessageView>
    decreases requests.len(),
{
    if requests.len() == 0 {
        Seq::empty()
    } else {
        requests_messages(requests.drop_last()) + asked(requests.last()) + answered(
            requests.last(),
        )
    }
}

/// The times of a session: when it was made, and those of its requests.
pub open spec fn session_stamps(created: Option<i64>, requests: Seq<Tree>) -> Seq<Option<i64>>
    decreases requests.len(),
{
    if requests.len() == 0 {
        seq![created]
    } else {
        session_stamps(created, requests.drop_last()) + types::stamps_of(asked(requests.last()))
            + answer_stamps(requests.last())
    }
}

/// The title that a session carries, unless it is empty.
pub open spec fn own_title(session: Tree) -> Option<Seq<char>> {
    match json::text_in(session.field_or("customTitle"@, "computedTitle"@)) {
        Some(title) => if title.len() == 0 {
            None
        } else {
            Some(title)
        },
        None => None,
    }
}

/// Metadata that names the source and the storage.
pub open spec fn storage_metadata(storage: Seq<char>) -> Tree {
    Tree::Object(
        Map::empty().insert("source"@, Tree::Text("copilot"@)).insert(
            "storage"@,
            Tree::Text(storage),
        ),
    )
}

/// The conversation that a session of VS Code is, if it is Copilot's and has a
/// message.
pub open spec fn session_conversation(
    session: Tree,
    path: Seq<Seq<char>>,
    workspace_hint: Option<Seq<char>>,
    storage: Seq<char>,
) -> Option<ConversationView> {
    if !(session is Object) || !copilot_session(session) || session.items_at("requests"@) is None {
        None
    } else {
        let requests = session.items_at("requests"@)->Some_0;
        let messages = requests_messages(requests);
        let stamps = session_stamps(content::stamp_at(session, "creationDate"@), requests);
        if messages.len() == 0 {
            None
        } else {
            Some(
                ConversationView {
                    agent_slug: "copilot"@,
                    external_id: text::text_or(
                        json::text_in(session.field_or("sessionId"@, "id"@)),
                        paths::stem_of(path),
                    ),
                    title: text::text_or(own_title(session), types::user_title(messages)),
                    workspace: text::text_or(
                        session.text_at("workingDirectory"@),
                        workspace_hint,
                    ),
                    source_path: path,
                    started_at: timeline::earliest(stamps),
                    ended_at: timeline::latest(stamps),
                    metadata: storage_metadata(storage),
                    messages: types::numbered(messages),
                },
            )
        }
    }
}

/// The folder that the text of a `workspace.json` names, given the field that
/// holds it.
pub open spec fn folder_in(field: Option<Tree>) -> Option<Seq<char>> {
    match json::text_in(field) {
        Some(value) => uri::uri_path(value),
        None => None,
    }
}

/// The folder that the document of a `workspace.json` names for a session file.
pub open spec fn session_folder(value: Tree) -> Option<Seq<char>> {
    folder_in(value.field_or_or("folder"@, "workspaceFolder"@, "workspace"@))
}

/// The folder that the document of a `workspace.json` names for a database.
pub open spec fn database_folder(value: Tree) -> Option<Seq<char>> {
    folder_in(value.field_or("folder"@, "workspaceFolder"@))
}

/// The document of the `workspace.json` in a directory that may be unknown.
pub open spec fn workspace_document(directory: Option<Seq<Seq<char>>>, disk: DiskView) -> Option<
    Tree,
> {
    match directory {
        Some(above) => match disk.text(paths::under(above, "workspace.json"@)) {
            Some(said) => document::json_document(said),
            None => None,
        },
        None => None,
    }
}

/// The workspace of a session file, named two directories above it.
pub open spec fn session_workspace(path: Seq<Seq<char>>, disk: DiskView) -> Option<Seq<char>> {
    match workspace_document(paths::parent_in(paths::parent_of(path)), disk) {
        Some(value) => session_folder(value),
        None => None,
    }
}

/// The workspace of a database, named beside it.
pub open spec fn database_workspace(path: Seq<Seq<char>>, disk: DiskView) -> Option<Seq<char>> {
    match workspace_document(paths::parent_of(path), disk) {
        Some(value) => database_folder(value),
        None => None,
    }
}

/// The session that a file holds, given its text if it has one.
pub open spec fn file_session(said: Option<Seq<char>>, lines: bool) -> Result<Tree, SessionError> {
    match said {
        None => Err(SessionError::Unreadable),
        Some(inner) => if lines {
            match vscode_chat::replayed(vscode_chat::log_entries(inner)) {
                Ok(state) => Ok(state),
                Err(error) => Err(SessionError::Replay(error)),
            }
        } else {
            match document::json_document(inner) {
                Some(value) => Ok(value),
                None => Err(SessionError::NotJson),
            }
        },
    }
}

/// The name of the storage of a session file.
pub open spec fn storage_name(lines: bool) -> Seq<char> {
    if lines {
        "vscode-workspace-jsonl"@
    } else {
        "vscode-workspace-json"@
    }
}

/// The conversation of a session file.
pub open spec fn native_file(path: Seq<Seq<char>>, disk: DiskView) -> Result<
    Seq<ConversationView>,
    SessionError,
> {
    let lines = paths::lines_look(path);
    match file_session(disk.text(path), lines) {
        Err(error) => Err(error),
        Ok(session) => Ok(
            types::listed(
                session_conversation(
                    session,
                    path,
                    session_workspace(path, disk),
                    storage_name(lines),
                ),
            ),
        ),
    }
}

/// The name of a session.
pub open spec fn session_id(session: Tree) -> Option<Seq<char>> {
    json::text_in(session.field_or("sessionId"@, "id"@))
}

/// Whether a session of a name is among some.
pub open spec fn names_session(sessions: Seq<Tree>, id: Seq<char>) -> bool {
    exists|i: int| 0 <= i < sessions.len() && session_id(#[trigger] sessions[i]) == Some(id)
}

/// The place of a session of a database.
pub open spec fn row_path(path: Seq<Seq<char>>, id: Seq<char>) -> Seq<Seq<char>> {
    paths::under(path, "interactive.sessions#"@ + id)
}

/// Whether a conversation did not end before a time.
pub open spec fn recent(conversation: ConversationView, since: Option<i64>) -> bool {
    match (since, conversation.ended_at) {
        (Some(bound), Some(end)) => end >= bound,
        _ => true,
    }
}

/// The conversations of the sessions of a database: of those with one name the
/// first counts, and one that ended before a time is left out.
pub open spec fn database_conversations(
    sessions: Seq<Tree>,
    path: Seq<Seq<char>>,
    workspace: Option<Seq<char>>,
    since: Option<i64>,
) -> Seq<ConversationView>
    decreases sessions.len(),
{
    if sessions.len() == 0 {
        Seq::empty()
    } else {
        let earlier = sessions.drop_last();
        let before = database_conversations(earlier, path, workspace, since);
        match session_id(sessions.last()) {
            None => before,
            Some(id) => if names_session(earlier, id) {
                before
            } else {
                match session_conversation(
                    sessions.last(),
                    row_path(path, id),
                    workspace,
                    "vscode-interactive-sessions"@,
                ) {
                    Some(conversation) => if recent(conversation, since) {
                        before.push(conversation)
                    } else {
                        before
                    },
                    None => before,
                }
            },
        }
    }
}

/// The sessions that the rows of a database hold: the items of the arrays that
/// they are.
pub open spec fn row_sessions(documents: Seq<Option<Tree>>) -> Seq<Tree>
    decreases documents.len(),
{
    if documents.len() == 0 {
        Seq::empty()
    } else {
        row_sessions(documents.drop_last()) + json::items_or_none(
            json::items_in(documents.last()),
        )
    }
}

/// The conversations of a database.
pub open spec fn native_database(
    path: Seq<Seq<char>>,
    since: Option<i64>,
    disk: DiskView,
) -> Result<Seq<ConversationView>, SessionError> {
    match disk.rows(path) {
        None => Err(SessionError::Unreadable),
        Some(rows) => Ok(
            database_conversations(
                row_sessions(document::line_documents(rows)),
                path,
                database_workspace(path, disk),
                since,
            ),
        ),
    }
}

/// Whether a value that may be absent names Copilot.
fn names_copilot_at(value: Option<&Json>) -> (yes: bool)
    ensures
        yes == names_copilot_in(json::seen(value)),
{
    match value {
        Some(inner) => CopilotConnector::copilot_agent_value(inner),
        None => false,
    }
}

/// Whether a request went to an agent of Copilot.
fn is_copilot_request(request: &Json) -> (yes: bool)
    ensures
        yes == copilot_request(request@),
{
    match request.get("agent") {
        Some(agent) => {
            CopilotConnector::copilot_agent_value(agent) || names_copilot_at(agent.get("id"))
                || names_copilot_at(agent.get("name")) || names_copilot_at(agent.get("displayName"))
                || names_copilot_at(agent.get("extensionId")) || names_copilot_at(
                agent.get("publisher"),
            )
        },
        None => false,
    }
}

/// What one part of a response says, unless it is blank.
fn say(part: &Json) -> (said: Option<String>)
    ensures
        text::held(said) == part_said(part@),
{
    let said = if content::is_text(part.get("kind"), "markdownContent") {
        match part.get("content") {
            Some(inner) => CopilotConnector::copilot_text(inner),
            None => None,
        }
    } else {
        CopilotConnector::copilot_text(part)
    };
    match said {
        Some(inner) => {
            if text::blank(inner.as_str()) {
                None
            } else {
                Some(inner)
            }
        },
        None => None,
    }
}

/// What a call that may be absent says.
spec fn held_call(call: Option<NormalizedInvocation>) -> Option<InvocationView> {
    match call {
        Some(inner) => Some(inner@),
        None => None,
    }
}

/// The tool call that a part of a response records.
fn recorded_call(part: &Json) -> (call: Option<NormalizedInvocation>)
    ensures
        held_call(call) == part_call(part@),
{
    if !content::is_text(part.get("kind"), "toolInvocationSerialized") {
        return None;
    }
    match content::string_in(part.get_or_or("toolId", "toolName", "name")) {
        Some(name) => Some(
            NormalizedInvocation {
                kind: "tool".to_owned(),
                name,
                raw_name: None,
                call_id: content::string_in(part.get_or("toolCallId", "callId")),
                arguments: content::copy_in(part.get_or("arguments", "parameters")),
            },
        ),
        None => None,
    }
}

/// Adds what one part of a response says and calls.
fn add_part(
    said: &mut Vec<String>,
    calls: &mut Vec<NormalizedInvocation>,
    part: &Json,
    Ghost(earlier): Ghost<Seq<Tree>>,
    Ghost(blocks): Ghost<Seq<InvocationView>>,
)
    requires
        text::texts(old(said)@) == parts_said(earlier),
        types::invocations_of(old(calls)@) == blocks + parts_calls(earlier),
    ensures
        text::texts(final(said)@) == parts_said(earlier.push(part@)),
        types::invocations_of(final(calls)@) == blocks + parts_calls(earlier.push(part@)),
{
    broadcast use text::lemma_texts_push;

    let ghost all = earlier.push(part@);
    assert(all.drop_last() =~= earlier);
    assert(all.last() == part@);
    if let Some(inner) = say(part) {
        said.push(inner);
    }
    let ghost before = calls@;
    if let Some(call) = recorded_call(part) {
        calls.push(call);
        assert(types::invocations_of(calls@) =~= types::invocations_of(before).push(call@));
        assert(types::invocations_of(calls@) =~= blocks + parts_calls(all));
    }
}

/// A JSON object that names the source and the storage.
fn storage_object(storage: &str) -> (object: Json)
    ensures
        object@ == storage_metadata(storage@),
{
    let mut members: Vec<Member> = Vec::new();
    let first = Member { key: "source".to_owned(), value: Json::Text("copilot".to_owned()) };
    let second = Member { key: "storage".to_owned(), value: Json::Text(storage.to_owned()) };
    proof {
        reveal_strlit("source");
        reveal_strlit("storage");
        assert("source"@.len() != "storage"@.len());
        assert(json::fields_of(members@) =~= Map::empty());
        json::lemma_fields_push(members@, first);
        json::lemma_fields_push(members@.push(first), second);
    }
    members.push(first);
    members.push(second);
    Json::Object(members)
}

impl CopilotConnector {
    /// The text of a value of a chat session.
    pub fn copilot_text(value: &Json) -> (said: Option<String>)
        ensures
            text::held(said) == value_text(value@),
    {
        if let Some(said) = value.as_str() {
            return Some(said.to_owned());
        }
        if let Some(said) = value.str_at("text") {
            return Some(said.to_owned());
        }
        if let Some(parts) = value.get("parts") {
            let said = content::flatten_content(parts);
            if !said.as_str().is_empty() {
                return Some(said);
            }
        }
        None
    }

    /// Whether a value names Copilot.
    pub fn copilot_agent_value(value: &Json) -> (yes: bool)
        ensures
            yes == names_copilot(value@),
        decreases value,
    {
        if let Some(inner) = value.get("value") {
            return Self::copilot_agent_value(inner);
        }
        match value.as_str() {
            Some(name) => {
                let lower = text::to_ascii_lower(name);
                let lower = lower.as_str();
                text::same_text(lower, "github.copilot-chat") || text::same_text(
                    lower,
                    "github copilot",
                ) || text::same_text(lower, "github-copilot") || text::contains(
                    lower,
                    "github.copilot-chat",
                ) || text::contains(lower, "github copilot")
            },
            None => false,
        }
    }

    /// Whether a session shows that it is Copilot's.
    pub fn has_copilot_evidence(session: &Json) -> (yes: bool)
        ensures
            yes == copilot_session(session@),
    {
        broadcast use json::group_trees;

        if names_copilot_at(session.get("responderUsername")) {
            return true;
        }
        if let Some(requests) = session.array_at("requests") {
            let ghost trees = json::trees_of(requests@);
            let mut i: usize = 0;
            while i < requests.len()
                invariant
                    i <= requests.len(),
                    trees == json::trees_of(requests@),
                    session@.items_at("requests"@) == Some(trees),
                    forall|j: int| 0 <= j < i ==> !copilot_request(#[trigger] trees[j]),
                decreases requests.len() - i,
            {
                assert(trees[i as int] == requests[i as int]@);
                if is_copilot_request(&requests[i]) {
                    assert(copilot_request(trees[i as int]));
                    return true;
                }
                i += 1;
            }
        }
        false
    }

    /// What a response says, and the tools that it calls.
    pub fn response_parts(value: &Json) -> (parts: (String, Vec<NormalizedInvocation>))
        ensures
            parts.0@ == response_text(value@),
            types::invocations_of(parts.1@) == response_calls(value@),
    {
        broadcast use json::group_trees;

        let mut said: Vec<String> = Vec::new();
        let mut calls = content::extract_invocations_from_content_blocks(value);
        let ghost blocks = content::content_calls(value@);
        let ghost none = Seq::<Tree>::empty();
        assert(text::texts(said@) =~= parts_said(none));
        assert(types::invocations_of(calls@) =~= blocks + parts_calls(none));
        match value.as_array() {
            Some(parts) => {
                let ghost trees = json::trees_of(parts@);
                let mut i: usize = 0;
                assert(trees.take(0) =~= none);
                while i < parts.len()
                    invariant
                        i <= parts.len(),
                        trees == json::trees_of(parts@),
                        text::texts(said@) == parts_said(trees.take(i as int)),
                        types::invocations_of(calls@) == blocks + parts_calls(
                            trees.take(i as int),
                        ),
                    decreases parts.len() - i,
                {
                    assert(trees.take(i + 1) =~= trees.take(i as int).push(parts[i as int]@));
                    add_part(
                        &mut said,
                        &mut calls,
                        &parts[i],
                        Ghost(trees.take(i as int)),
                        Ghost(blocks),
                    );
                    i += 1;
                }
                assert(trees.take(i as int) =~= trees);
            },
            None => {
                assert(none.push(value@) =~= seq![value@]);
                add_part(&mut said, &mut calls, value, Ghost(none), Ghost(blocks));
            },
        }
        (text::join_lines(&said), calls)
    }

    /// Adds the messages and the times of a request.
    fn add_request(
        messages: &mut Vec<NormalizedMessage>,
        started_at: &mut Option<i64>,
        ended_at: &mut Option<i64>,
        request: &Json,
        Ghost(drafts): Ghost<Seq<MessageView>>,
        Ghost(stamps): Ghost<Seq<Option<i64>>>,
    )
        requires
            types::messages_of(old(messages)@) == types::numbered(drafts),
            *old(started_at) == timeline::earliest(stamps),
            *old(ended_at) == timeline::latest(stamps),
        ensures
            types::messages_of(final(messages)@) == types::numbered(
                drafts + asked(request@) + answered(request@),
            ),
            *final(started_at) == timeline::earliest(
                stamps + types::stamps_of(asked(request@)) + answer_stamps(request@),
            ),
            *final(ended_at) == timeline::latest(
                stamps + types::stamps_of(asked(request@)) + answer_stamps(request@),
            ),
    {
        broadcast use types::lemma_numbered_push;

        let ghost question = asked(request@);
        let ghost answer = answered(request@);
        let ghost times = types::stamps_of(question);
        let message = match request.get("message") {
            Some(message) => message,
            None => {
                assert(drafts + question + answer =~= drafts);
                assert(stamps + times + answer_stamps(request@) =~= stamps);
                return;
            },
        };
        let user_content = match Self::copilot_text(message) {
            Some(said) => said,
            None => Self::extract_message_content(request),
        };
        let user_ts = content::timestamp_in(request.get("timestamp"));
        let ghost with_question = drafts + question;
        let ghost with_times = stamps + times;
        if !text::blank(user_content.as_str()) {
            proof {
                timeline::lemma_bounds_push(stamps, user_ts);
                assert(with_question =~= drafts.push(question[0]));
                assert(with_times =~= stamps.push(user_ts));
            }
            *started_at = timeline::min_timestamp(*started_at, user_ts);
            *ended_at = timeline::max_timestamp(*ended_at, user_ts);
            let none = Vec::new();
            assert(types::invocations_of(none@) =~= Seq::empty());
            types::add_message(
                messages,
                "user",
                Some("user"),
                user_ts,
                user_content,
                request.copy(),
                none,
            );
        } else {
            assert(with_question =~= drafts);
            assert(with_times =~= stamps);
        }
        if let Some(response) = request.get("response") {
            let (said, calls) = Self::response_parts(response);
            let at = match request.get("responseTimestamp") {
                Some(at) => Some(at),
                None => response.get("timestamp"),
            };
            let response_ts = content::timestamp_in(at);
            proof {
                timeline::lemma_bounds_push(with_times, response_ts);
                assert(with_times + answer_stamps(request@) =~= with_times.push(response_ts));
            }
            *started_at = timeline::min_timestamp(*started_at, response_ts);
            *ended_at = timeline::max_timestamp(*ended_at, response_ts);
            assert(types::invocations_of(calls@).len() == calls.len());
            if !text::blank(said.as_str()) || calls.len() > 0 {
                assert(with_question + answer =~= with_question.push(answer[0]));
                types::add_message(
                    messages,
                    "assistant",
                    Some("copilot"),
                    response_ts,
                    said,
                    response.copy(),
                    calls,
                );
            } else {
                assert(with_question + answer =~= with_question);
            }
        } else {
            assert(with_question + answer =~= with_question);
            assert(with_times + answer_stamps(request@) =~= with_times);
        }
    }

    /// The conversation that a session of VS Code is, if it is Copilot's and has
    /// a message.
    pub fn parse_native_session_value(
        session: &Json,
        source_path: &FilePath,
        workspace_hint: Option<String>,
        storage: &str,
    ) -> (found: Option<NormalizedConversation>)
        ensures
            types::held_conversation(found) == session_conversation(
                session@,
                source_path@,
                text::held(workspace_hint),
                storage@,
            ),
    {
        broadcast use json::group_trees;

        if !session.is_object() || !Self::has_copilot_evidence(session) {
            return None;
        }
        let requests = match session.array_at("requests") {
            Some(requests) => requests,
            None => {
                return None;
            },
        };
        let ghost trees = json::trees_of(requests@);
        let created = content::timestamp_in(session.get("creationDate"));
        let mut messages: Vec<NormalizedMessage> = Vec::new();
        let mut started_at = created;
        let mut ended_at = created;
        let mut i: usize = 0;
        proof {
            let none = Seq::<Option<i64>>::empty();
            timeline::lemma_bounds_push(none, created);
            assert(none.push(created) =~= seq![created]);
            assert(types::messages_of(messages@) =~= types::numbered(
                requests_messages(trees.take(0)),
            ));
        }
        while i < requests.len()
            invariant
                i <= requests.len(),
                trees == json::trees_of(requests@),
                types::messages_of(messages@) == types::numbered(
                    requests_messages(trees.take(i as int)),
                ),
                started_at == timeline::earliest(session_stamps(created, trees.take(i as int))),
                ended_at == timeline::latest(session_stamps(created, trees.take(i as int))),
            decreases requests.len() - i,
        {
            assert(trees.take(i + 1).drop_last() =~= trees.take(i as int));
            assert(trees.take(i + 1).last() == requests[i as int]@);
            Self::add_request(
                &mut messages,
                &mut started_at,
                &mut ended_at,
                &requests[i],
                Ghost(requests_messages(trees.take(i as int))),
                Ghost(session_stamps(created, trees.take(i as int))),
            );
            i += 1;
        }
        assert(trees.take(i as int) =~= trees);
        let ghost drafts = requests_messages(trees);
        assert(types::messages_of(messages@).len() == drafts.len());
        if messages.len() == 0 {
            return None;
        }
        proof {
            types::lemma_numbered_stamps(drafts);
        }
        let external_id = match content::string_in(session.get_or("sessionId", "id")) {
            Some(id) => Some(id),
            None => source_path.file_stem(),
        };
        let workspace = match content::string_in(session.get("workingDirectory")) {
            Some(place) => Some(place),
            None => workspace_hint,
        };
        let carried = match content::string_in(session.get_or("customTitle", "computedTitle")) {
            Some(title) => if title.as_str().is_empty() {
                None
            } else {
                Some(title)
            },
            None => None,
        };
        let title = match carried {
            Some(title) => Some(title),
            None => types::title_of(&messages),
        };
        Some(
            NormalizedConversation {
                agent_slug: "copilot".to_owned(),
                external_id,
                title,
                workspace,
                source_path: source_path.copy(),
                started_at,
                ended_at,
                metadata: storage_object(storage),
                messages,
            },
        )
    }

    /// The folder that the document of a `workspace.json` names for a session
    /// file.
    pub fn session_folder(value: &Json) -> (folder: Option<String>)
        ensures
            text::held(folder) == session_folder(value@),
    {
        Self::folder(value.get_or_or("folder", "workspaceFolder", "workspace"))
    }

    /// The folder that the document of a `workspace.json` names for a database.
    pub fn database_folder(value: &Json) -> (folder: Option<String>)
        ensures
            text::held(folder) == database_folder(value@),
    {
        Self::folder(value.get_or("folder", "workspaceFolder"))
    }

    /// The document of the `workspace.json` in a directory that may be unknown.
    fn read_workspace(directory: Option<FilePath>, disk: &Disk) -> (value: Option<Json>)
        ensures
            document::held(value) == workspace_document(paths::held(directory), disk@),
    {
        match directory {
            Some(above) => match disk.text(&above.join("workspace.json")) {
                Some(said) => document::parse_json(said.as_str()),
                None => None,
            },
            None => None,
        }
    }

    /// The workspace of a session file, named two directories above it.
    pub fn workspace_for_session(path: &FilePath, disk: &Disk) -> (workspace: Option<String>)
        ensures
            text::held(workspace) == session_workspace(path@, disk@),
    {
        let above = match path.parent() {
            Some(parent) => parent.parent(),
            None => None,
        };
        match Self::read_workspace(above, disk) {
            Some(value) => Self::session_folder(&value),
            None => None,
        }
    }

    /// The workspace of a database, named beside it.
    pub fn workspace_for_database(path: &FilePath, disk: &Disk) -> (workspace: Option<String>)
        ensures
            text::held(workspace) == database_workspace(path@, disk@),
    {
        match Self::read_workspace(path.parent(), disk) {
            Some(value) => Self::database_folder(&value),
            None => None,
        }
    }

    /// The path that a field of a `workspace.json` names.
    fn folder(field: Option<&Json>) -> (path: Option<String>)
        ensures
            text::held(path) == folder_in(json::seen(field)),
    {
        match field {
            Some(value) => match value.as_str() {
                Some(inner) => Self::path_from_uri(inner),
                None => None,
            },
            None => None,
        }
    }

    /// The conversation of a session file: an operation log where the extension
    /// is `jsonl`, else one JSON document.
    pub fn parse_native_session_file(path: &FilePath, disk: &Disk) -> (outcome: Result<
        Vec<NormalizedConversation>,
        SessionError,
    >)
        ensures
            copilot::seen_outcome(outcome) == native_file(path@, disk@),
    {
        broadcast use types::lemma_conversations_push;

        let said = match disk.text(path) {
            Some(said) => said,
            None => {
                return Err(SessionError::Unreadable);
            },
        };
        let lines = path.has_lines_extension();
        let session = if lines {
            match vscode_chat::replay_operation_log(said.as_str()) {
                Ok(state) => state,
                Err(error) => {
                    return Err(SessionError::Replay(error));
                },
            }
        } else {
            match document::parse_json(said.as_str()) {
                Some(value) => value,
                None => {
                    return Err(SessionError::NotJson);
                },
            }
        };
        let storage = if lines {
            "vscode-workspace-jsonl"
        } else {
            "vscode-workspace-json"
        };
        let mut out: Vec<NormalizedConversation> = Vec::new();
        assert(types::conversations_of(out@) =~= Seq::empty());
        if let Some(conversation) = Self::parse_native_session_value(
            &session,
            path,
            Self::workspace_for_session(path, disk),
            storage,
        ) {
            out.push(conversation);
            assert(types::conversations_of(out@) =~= seq![conversation@]);
        }
        Ok(out)
    }

    /// The conversations of the sessions of a database.
    pub fn parse_interactive_sessions(
        sessions: &Vec<Json>,
        path: &FilePath,
        workspace: Option<String>,
        since_ts: Option<i64>,
    ) -> (out: Vec<NormalizedConversation>)
        ensures
            types::conversations_of(out@) == database_conversations(
                json::trees_of(sessions@),
                path@,
                text::held(workspace),
                since_ts,
            ),
    {
        broadcast use json::group_trees, types::lemma_conversations_push;

        let ghost trees = json::trees_of(sessions@);
        let mut out: Vec<NormalizedConversation> = Vec::new();
        let mut seen: Vec<String> = Vec::new();
        let mut i: usize = 0;
        assert(types::conversations_of(out@) =~= Seq::empty());
        while i < sessions.len()
            invariant
                i <= sessions.len(),
                trees == json::trees_of(sessions@),
                types::conversations_of(out@) == database_conversations(
                    trees.take(i as int),
                    path@,
                    text::held(workspace),
                    since_ts,
                ),
                forall|id: Seq<char>| #[trigger]
                    text::texts(seen@).contains(id) <==> names_session(trees.take(i as int), id),
            decreases sessions.len() - i,
        {
            let session = &sessions[i];
            let ghost earlier = trees.take(i as int);
            let ghost all = trees.take(i + 1);
            assert(all.drop_last() =~= earlier);
            assert(all.last() == session@);
            let found = content::string_in(session.get_or("sessionId", "id"));
            proof {
                lemma_names_one_more(earlier, session@);
                assert(all =~= earlier.push(session@));
            }
            if let Some(id) = found {
                let known = text::is_among(&seen, id.as_str());
                if !known {
                    let ghost before = seen@;
                    let source_path = path.join(row_name(id.as_str()).as_str());
                    let hint = match &workspace {
                        Some(place) => Some(place.clone()),
                        None => None,
                    };
                    if let Some(conversation) = Self::parse_native_session_value(
                        session,
                        &source_path,
                        hint,
                        "vscode-interactive-sessions",
                    ) {
                        let keep = match (since_ts, conversation.ended_at) {
                            (Some(bound), Some(end)) => end >= bound,
                            _ => true,
                        };
                        if keep {
                            out.push(conversation);
                        }
                    }
                    seen.push(id);
                    proof {
                        text::lemma_texts_push(before, id);
                        text::lemma_contains_push(text::texts(before), id@);
                    }
                }
            }
            i += 1;
        }
        assert(trees.take(i as int) =~= trees);
        out
    }

    /// The conversations of VS Code's `interactive.sessions` storage key.
    ///
    /// The key holds one JSON array of chat sessions. A row that is no such
    /// array is passed over.
    pub fn parse_interactive_sessions_db(
        path: &FilePath,
        since_ts: Option<i64>,
        disk: &Disk,
    ) -> (outcome: Result<Vec<NormalizedConversation>, SessionError>)
        ensures
            copilot::seen_outcome(outcome) == native_database(path@, since_ts, disk@),
    {
        broadcast use json::group_trees;

        let rows = match disk.rows(path) {
            Some(rows) => rows,
            None => {
                return Err(SessionError::Unreadable);
            },
        };
        let ghost documents = document::line_documents(text::texts(rows@));
        let mut sessions: Vec<Json> = Vec::new();
        let mut i: usize = 0;
        assert(json::trees_of(sessions@) =~= row_sessions(documents.take(0)));
        while i < rows.len()
            invariant
                i <= rows.len(),
                documents == document::line_documents(text::texts(rows@)),
                json::trees_of(sessions@) == row_sessions(documents.take(i as int)),
            decreases rows.len() - i,
        {
            assert(documents.take(i + 1).drop_last() =~= documents.take(i as int));
            assert(documents.take(i + 1).last() == document::json_document(rows[i as int]@));
            let ghost before = sessions@;
            match document::parse_json(rows[i].as_str()) {
                Some(Json::Array(items)) => {
                    let mut more = items;
                    sessions.append(&mut more);
                    assert(json::trees_of(sessions@) =~= json::trees_of(before) + json::trees_of(
                        items@,
                    ));
                },
                _ => {
                    assert(json::trees_of(sessions@) =~= row_sessions(documents.take(i + 1)));
                },
            }
            i += 1;
        }
        assert(documents.take(i as int) =~= documents);
        let workspace = Self::workspace_for_database(path, disk);
        Ok(Self::parse_interactive_sessions(&sessions, path, workspace, since_ts))
    }
}

/// One more session is one more name.
proof fn lemma_names_one_more(sessions: Seq<Tree>, session: Tree)
    ensures
        forall|id: Seq<char>| #[trigger]
            names_session(sessions.push(session), id) <==> names_session(sessions, id)
                || session_id(session) == Some(id),
{
    let all = sessions.push(session);
    assert forall|id: Seq<char>| #[trigger] names_session(all, id) <==> names_session(sessions, id)
        || session_id(session) == Some(id) by {
        if names_session(sessions, id) {
            let i = choose|i: int|
                0 <= i < sessions.len() && session_id(#[trigger] sessions[i]) == Some(id);
            assert(session_id(all[i]) == Some(id));
        }
        if session_id(session) == Some(id) {
            assert(session_id(all[sessions.len() as int]) == Some(id));
        }
        if names_session(all, id) {
            let i = choose|i: int| 0 <= i < all.len() && session_id(#[trigger] all[i]) == Some(id);
            if i < sessions.len() {
                assert(session_id(sessions[i]) == Some(id));
            }
        }
    }
}

/// The name under which a session of a database is placed.
fn row_name(id: &str) -> (name: String)
    ensures
        name@ == "interactive.sessions#"@ + id@,
{
    let mut name = "interactive.sessions#".to_owned();
    name.append(id);
    name
}

} // verus!
