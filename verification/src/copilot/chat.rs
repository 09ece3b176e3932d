//! Copilot Chat conversations as exported JSON.
//!
//! A file holds an array of conversations, an object with a `conversations`
//! array, or one conversation. A conversation has `turns`, each with a
//! `request` and a `response`, or a `messages` array with role and content.
use crate::content;
use crate::copilot;
use crate::copilot::{CopilotConnector, SessionError};
use crate::disk::Disk;
use crate::document;
use crate::json;
use crate::json::{Json, Member, Tree};
use crate::paths::FilePath;
use crate::text;
use crate::timeline;
use crate::types;
use crate::types::{ConversationView, MessageView, NormalizedConversation, NormalizedMessage};
use vstd::prelude::*;

verus! {

/// The text of a message: that of the first of its fields `message`, `content`,
/// `text` and `value` that has any.
pub open spec fn message_text(value: Tree) -> Seq<char> {
    text::filled_or(
        content::flat_at(value, "message"@),
        text::filled_or(
            content::flat_at(value, "content"@),
            text::filled_or(content::flat_at(value, "text"@), content::flat_at(value, "value"@)),
        ),
    )
}

/// The time of a turn, a message or an event: the first known of the fields
/// that may hold it.
pub open spec fn turn_stamp(value: Tree) -> Option<i64> {
    timeline::known(
        content::stamp_at(value, "timestamp"@),
        timeline::known(
            content::stamp_at(value, "createdAt"@),
            timeline::known(
                content::stamp_at(value, "created_at"@),
                timeline::known(
                    content::stamp_at(value, "time"@),
                    timeline::known(content::stamp_at(value, "ts"@), content::stamp_at(value, "date"@)),
                ),
            ),
        ),
    )
}

/// The message that one side of a turn is, if it says anything.
pub open spec fn side_messages(
    side: Option<Tree>,
    role: Seq<char>,
    author: Seq<char>,
) -> Seq<MessageView> {
    match side {
        Some(value) => if text::is_blank(message_text(value)) {
            Seq::empty()
        } else {
            seq![
                types::draft(
                    role,
                    Some(author),
                    turn_stamp(value),
                    message_text(value),
                    value,
                    Seq::empty(),
                ),
            ]
        },
        None => Seq::empty(),
    }
}

/// The messages of a turn: the request of the user, then Copilot's response.
pub open spec fn turn_messages(turn: Tree) -> Seq<MessageView> {
    side_messages(turn.field("request"@), "user"@, "user"@) + side_messages(
        turn.field("response"@),
        "assistant"@,
        "copilot"@,
    )
}

/// The messages of some turns.
pub open spec fn turns_messages(turns: Seq<Tree>) -> Seq<MessageView>
    decreases turns.len(),
{
    if turns.len() == 0 {
        Seq::empty()
    } else {
        turns_messages(turns.drop_last()) + turn_messages(turns.last())
    }
}

/// Who wrote a message of a role.
pub open spec fn author_of(role: Seq<char>) -> Seq<char> {
    if role == "user"@ {
        "user"@
    } else {
        "copilot"@
    }
}

/// The role of a message, which is the assistant's unless it is given.
pub open spec fn role_of(message: Tree) -> Seq<char> {
    match message.text_at("role"@) {
        Some(role) => role,
        None => "assistant"@,
    }
}

/// The messages of a `messages` array that say anything.
pub open spec fn listed_messages(messages: Seq<Tree>) -> Seq<MessageView>
    decreases messages.len(),
{
    if messages.len() == 0 {
        Seq::empty()
    } else {
        let message = messages.last();
        listed_messages(messages.drop_last()) + side_messages(
            Some(message),
            role_of(message),
            author_of(role_of(message)),
        )
    }
}

/// The messages of a conversation: those of its turns or, where they say
/// nothing, those of its `messages` array.
pub open spec fn conversation_messages(conversation: Tree) -> Seq<MessageView> {
    let from_turns = turns_messages(json::items_or_none(conversation.items_at("turns"@)));
    if from_turns.len() > 0 {
        from_turns
    } else {
        listed_messages(json::items_or_none(conversation.items_at("messages"@)))
    }
}

/// Metadata that names the source alone.
pub open spec fn source_metadata(source: Seq<char>) -> Tree {
    Tree::Object(Map::empty().insert("source"@, Tree::Text(source)))
}

/// The conversation that a JSON value with some messages is, if it has one.
///
/// Its bounds in time are those of its messages; where those are unknown, the
/// times of the conversation itself, of which one stands for the other if need
/// be.
pub open spec fn conversation_with(
    conversation: Tree,
    messages: Seq<MessageView>,
    path: Seq<Seq<char>>,
) -> Option<ConversationView> {
    if messages.len() == 0 {
        None
    } else {
        let first = timeline::known(
            timeline::earliest(types::stamps_of(messages)),
            content::stamp_in(
                conversation.field_or_or("createdAt"@, "created_at"@, "timestamp"@),
            ),
        );
        let last = timeline::known(
            timeline::latest(types::stamps_of(messages)),
            content::stamp_in(conversation.field_or("updatedAt"@, "updated_at"@)),
        );
        Some(
            ConversationView {
                agent_slug: "copilot"@,
                external_id: json::text_in(conversation.field_or("id"@, "conversationId"@)),
                title: text::text_or(
                    json::text_in(conversation.field_or("title"@, "chatTitle"@)),
                    types::user_title(messages),
                ),
                workspace: json::text_in(
                    conversation.field_or_or("workspaceFolder"@, "workspace"@, "workspacePath"@),
                ),
                source_path: path,
                started_at: timeline::known(first, last),
                ended_at: timeline::known(last, first),
                metadata: source_metadata("copilot"@),
                messages: types::numbered(messages),
            },
        )
    }
}

/// The conversation that a JSON value is, if it has a message.
pub open spec fn single_conversation(
    conversation: Tree,
    path: Seq<Seq<char>>,
) -> Option<ConversationView> {
    conversation_with(conversation, conversation_messages(conversation), path)
}

/// The messages of a session document of the CLI: those of a conversation or,
/// where they say nothing, those of its `conversation` array.
pub open spec fn session_messages(session: Tree) -> Seq<MessageView> {
    let messages = conversation_messages(session);
    if messages.len() > 0 {
        messages
    } else {
        listed_messages(json::items_or_none(session.items_at("conversation"@)))
    }
}

/// The conversation that a session document of the CLI is, if it has a message.
pub open spec fn session_conversation(session: Tree, path: Seq<Seq<char>>) -> Option<
    ConversationView,
> {
    conversation_with(session, session_messages(session), path)
}

/// The conversations among some JSON values.
pub open spec fn singles(values: Seq<Tree>, path: Seq<Seq<char>>) -> Seq<ConversationView>
    decreases values.len(),
{
    if values.len() == 0 {
        Seq::empty()
    } else {
        let before = singles(values.drop_last(), path);
        match single_conversation(values.last(), path) {
            Some(conversation) => before.push(conversation),
            None => before,
        }
    }
}

/// The values that a document lists as conversations: those of the array that
/// it is, or those of its `conversations` array.
pub open spec fn listed_values(value: Tree) -> Option<Seq<Tree>> {
    match value.items() {
        Some(list) => Some(list),
        None => value.items_at("conversations"@),
    }
}

/// The conversations of an exported document: those that it lists, or else the
/// document itself where it has an `id` or `turns`.
pub open spec fn exported(value: Tree, path: Seq<Seq<char>>) -> Seq<ConversationView> {
    match listed_values(value) {
        Some(list) => singles(list, path),
        None => if value.field("id"@) is Some || value.field("turns"@) is Some {
            types::listed(single_conversation(value, path))
        } else {
            Seq::empty()
        },
    }
}

/// The conversations of a document of the CLI: those that it lists, or else the
/// document itself where it has an `id`, `turns`, `messages` or a `conversation`
/// array.
pub open spec fn chat_style(value: Tree, path: Seq<Seq<char>>) -> Seq<ConversationView> {
    match listed_values(value) {
        Some(list) => singles(list, path),
        None => if value.field("id"@) is Some || value.field("turns"@) is Some || value.field(
            "messages"@,
        ) is Some || value.items_at("conversation"@) is Some {
            types::listed(session_conversation(value, path))
        } else {
            Seq::empty()
        },
    }
}

/// The conversations of an exported file, given its text if it has one.
pub open spec fn exported_file(said: Option<Seq<char>>, path: Seq<Seq<char>>) -> Result<
    Seq<ConversationView>,
    SessionError,
> {
    match said {
        None => Err(SessionError::Unreadable),
        Some(inner) => match document::json_document(inner) {
            None => Err(SessionError::NotJson),
            Some(value) => Ok(exported(value, path)),
        },
    }
}

/// A JSON object with one field, a text.
pub fn text_object(key: &str, value: &str) -> (object: Json)
    ensures
        object@ == Tree::Object(Map::empty().insert(key@, Tree::Text(value@))),
{
    let mut members: Vec<Member> = Vec::new();
    let member = Member { key: key.to_owned(), value: Json::Text(value.to_owned()) };
    proof {
        json::lemma_fields_push(members@, member);
        assert(json::fields_of(members@) =~= Map::empty());
    }
    members.push(member);
    Json::Object(members)
}

/// Adds one side of a turn to the messages and to the bounds in time.
fn add_side(
    messages: &mut Vec<NormalizedMessage>,
    started_at: &mut Option<i64>,
    ended_at: &mut Option<i64>,
    side: Option<&Json>,
    role: &str,
    author: &str,
    Ghost(drafts): Ghost<Seq<MessageView>>,
)
    requires
        types::messages_of(old(messages)@) == types::numbered(drafts),
        *old(started_at) == timeline::earliest(types::stamps_of(drafts)),
        *old(ended_at) == timeline::latest(types::stamps_of(drafts)),
    ensures
        types::messages_of(final(messages)@) == types::numbered(
            drafts + side_messages(json::seen(side), role@, author@),
        ),
        *final(started_at) == timeline::earliest(
            types::stamps_of(drafts + side_messages(json::seen(side), role@, author@)),
        ),
        *final(ended_at) == timeline::latest(
            types::stamps_of(drafts + side_messages(json::seen(side), role@, author@)),
        ),
{
    broadcast use types::lemma_numbered_push;

    let ghost more = side_messages(json::seen(side), role@, author@);
    if let Some(value) = side {
        let said = CopilotConnector::extract_message_content(value);
        if !text::blank(said.as_str()) {
            let at = CopilotConnector::extract_turn_timestamp(value);
            proof {
                timeline::lemma_bounds_push(types::stamps_of(drafts), at);
                assert(types::stamps_of(drafts.push(more[0])) =~= types::stamps_of(drafts).push(at));
                assert(drafts + more =~= drafts.push(more[0]));
            }
            *started_at = timeline::min_timestamp(*started_at, at);
            *ended_at = timeline::max_timestamp(*ended_at, at);
            let none = Vec::new();
            assert(types::invocations_of(none@) =~= Seq::empty());
            types::add_message(messages, role, Some(author), at, said, value.copy(), none);
            return;
        }
    }
    assert(drafts + more =~= drafts);
}

/// The messages of a conversation and their bounds in time, as far as they were
/// gathered.
struct Gathered {
    messages: Vec<NormalizedMessage>,
    started_at: Option<i64>,
    ended_at: Option<i64>,
}

/// Whether just some messages were gathered.
spec fn gathers(gathered: Gathered, drafts: Seq<MessageView>) -> bool {
    &&& types::messages_of(gathered.messages@) == types::numbered(drafts)
    &&& gathered.started_at == timeline::earliest(types::stamps_of(drafts))
    &&& gathered.ended_at == timeline::latest(types::stamps_of(drafts))
}

/// Gathers the messages of an array that may be absent.
fn gather_listed(list: Option<&Vec<Json>>) -> (out: Gathered)
    ensures
        gathers(out, listed_messages(json::items_or_none(json::seen_items(list)))),
{
    broadcast use json::group_trees;

    let mut out = Gathered { messages: Vec::new(), started_at: None, ended_at: None };
    let ghost listed_in = json::items_or_none(json::seen_items(list));
    assert(types::messages_of(out.messages@) =~= types::numbered(Seq::empty()));
    assert(types::stamps_of(Seq::empty()) =~= Seq::empty());
    assert(listed_messages(listed_in.take(0)) =~= Seq::empty());
    if let Some(listed) = list {
        let mut i: usize = 0;
        while i < listed.len()
            invariant
                i <= listed.len(),
                listed_in == json::trees_of(listed@),
                gathers(out, listed_messages(listed_in.take(i as int))),
            decreases listed.len() - i,
        {
            let message = &listed[i];
            let role = match message.str_at("role") {
                Some(role) => role,
                None => "assistant",
            };
            let author = if text::same_text(role, "user") {
                "user"
            } else {
                "copilot"
            };
            add_side(
                &mut out.messages,
                &mut out.started_at,
                &mut out.ended_at,
                Some(message),
                role,
                author,
                Ghost(listed_messages(listed_in.take(i as int))),
            );
            proof {
                assert(listed_in.take(i + 1).drop_last() =~= listed_in.take(i as int));
                assert(listed_in.take(i + 1).last() == message@);
            }
            i += 1;
        }
        assert(listed_in.take(i as int) =~= listed_in);
    } else {
        assert(listed_in.take(0) =~= listed_in);
    }
    out
}

/// Gathers the messages of an array of turns that may be absent.
fn gather_turns(list: Option<&Vec<Json>>) -> (out: Gathered)
    ensures
        gathers(out, turns_messages(json::items_or_none(json::seen_items(list)))),
{
    broadcast use json::group_trees;

    let mut out = Gathered { messages: Vec::new(), started_at: None, ended_at: None };
    let ghost turns_in = json::items_or_none(json::seen_items(list));
    assert(types::messages_of(out.messages@) =~= types::numbered(Seq::empty()));
    assert(types::stamps_of(Seq::empty()) =~= Seq::empty());
    assert(turns_messages(turns_in.take(0)) =~= Seq::empty());
    if let Some(turns) = list {
        let mut i: usize = 0;
        while i < turns.len()
            invariant
                i <= turns.len(),
                turns_in == json::trees_of(turns@),
                gathers(out, turns_messages(turns_in.take(i as int))),
            decreases turns.len() - i,
        {
            let ghost drafts = turns_messages(turns_in.take(i as int));
            let turn = &turns[i];
            let ghost asked = side_messages(turn@.field("request"@), "user"@, "user"@);
            let ghost answered = side_messages(turn@.field("response"@), "assistant"@, "copilot"@);
            add_side(
                &mut out.messages,
                &mut out.started_at,
                &mut out.ended_at,
                turn.get("request"),
                "user",
                "user",
                Ghost(drafts),
            );
            add_side(
                &mut out.messages,
                &mut out.started_at,
                &mut out.ended_at,
                turn.get("response"),
                "assistant",
                "copilot",
                Ghost(drafts + asked),
            );
            proof {
                assert(turns_in.take(i + 1).drop_last() =~= turns_in.take(i as int));
                assert(turns_in.take(i + 1).last() == turn@);
                assert(drafts + asked + answered =~= turns_messages(turns_in.take(i + 1)));
            }
            i += 1;
        }
        assert(turns_in.take(i as int) =~= turns_in);
    } else {
        assert(turns_in.take(0) =~= turns_in);
    }
    out
}

/// Gathers the messages of a conversation.
fn gather_conversation(conversation: &Json) -> (out: Gathered)
    ensures
        gathers(out, conversation_messages(conversation@)),
{
    let from_turns = gather_turns(conversation.array_at("turns"));
    assert(types::messages_of(from_turns.messages@).len() == from_turns.messages.len());
    if from_turns.messages.len() > 0 {
        from_turns
    } else {
        gather_listed(conversation.array_at("messages"))
    }
}

/// Gathers the messages of a session document of the CLI.
fn gather_session(session: &Json) -> (out: Gathered)
    ensures
        gathers(out, session_messages(session@)),
{
    let first = gather_conversation(session);
    assert(types::messages_of(first.messages@).len() == first.messages.len());
    if first.messages.len() > 0 {
        first
    } else {
        gather_listed(session.array_at("conversation"))
    }
}

/// The conversation that a JSON value is with the messages gathered from it.
fn finish(
    conversation: &Json,
    gathered: Gathered,
    source_path: &FilePath,
    Ghost(drafts): Ghost<Seq<MessageView>>,
) -> (found: Option<NormalizedConversation>)
    requires
        gathers(gathered, drafts),
    ensures
        types::held_conversation(found) == conversation_with(conversation@, drafts, source_path@),
{
    let messages = gathered.messages;
    assert(types::messages_of(messages@).len() == drafts.len());
    if messages.len() == 0 {
        return None;
    }
    proof {
        types::lemma_numbered_stamps(drafts);
    }
    let first = timeline::known_timestamp(
        gathered.started_at,
        content::timestamp_in(conversation.get_or_or("createdAt", "created_at", "timestamp")),
    );
    let last = timeline::known_timestamp(
        gathered.ended_at,
        content::timestamp_in(conversation.get_or("updatedAt", "updated_at")),
    );
    let title = match content::string_in(conversation.get_or("title", "chatTitle")) {
        Some(title) => Some(title),
        None => types::title_of(&messages),
    };
    Some(
        NormalizedConversation {
            agent_slug: "copilot".to_owned(),
            external_id: content::string_in(conversation.get_or("id", "conversationId")),
            title,
            workspace: content::string_in(
                conversation.get_or_or("workspaceFolder", "workspace", "workspacePath"),
            ),
            source_path: source_path.copy(),
            started_at: timeline::known_timestamp(first, last),
            ended_at: timeline::known_timestamp(last, first),
            metadata: text_object("source", "copilot"),
            messages,
        },
    )
}

/// A conversation that may be absent, as a list.
fn list_of(found: Option<NormalizedConversation>) -> (out: Vec<NormalizedConversation>)
    ensures
        types::conversations_of(out@) == types::listed(types::held_conversation(found)),
{
    let mut out: Vec<NormalizedConversation> = Vec::new();
    if let Some(conversation) = found {
        out.push(conversation);
    }
    assert(types::conversations_of(out@) =~= types::listed(types::held_conversation(found)));
    out
}

impl CopilotConnector {
    /// The text of a message, from the first of its fields that has any.
    pub fn extract_message_content(value: &Json) -> (out: String)
        ensures
            out@ == message_text(value@),
    {
        if let Some(inner) = value.get("message") {
            let said = content::flatten_content(inner);
            if !said.as_str().is_empty() {
                return said;
            }
        }
        if let Some(inner) = value.get("content") {
            let said = content::flatten_content(inner);
            if !said.as_str().is_empty() {
                return said;
            }
        }
        if let Some(inner) = value.get("text") {
            let said = content::flatten_content(inner);
            if !said.as_str().is_empty() {
                return said;
            }
        }
        if let Some(inner) = value.get("value") {
            return content::flatten_content(inner);
        }
        String::new()
    }

    /// The time of a turn, a message or an event.
    pub fn extract_turn_timestamp(value: &Json) -> (at: Option<i64>)
        ensures
            at == turn_stamp(value@),
    {
        let first = timeline::known_timestamp(
            content::timestamp_in(value.get("timestamp")),
            content::timestamp_in(value.get("createdAt")),
        );
        let second = timeline::known_timestamp(
            content::timestamp_in(value.get("created_at")),
            content::timestamp_in(value.get("time")),
        );
        let third = timeline::known_timestamp(
            content::timestamp_in(value.get("ts")),
            content::timestamp_in(value.get("date")),
        );
        timeline::known_timestamp(first, timeline::known_timestamp(second, third))
    }

    /// The conversation that a JSON value is, if it has a message.
    pub fn parse_single_conversation(conversation: &Json, source_path: &FilePath) -> (found: Option<
        NormalizedConversation,
    >)
        ensures
            types::held_conversation(found) == single_conversation(conversation@, source_path@),
    {
        let gathered = gather_conversation(conversation);
        finish(
            conversation,
            gathered,
            source_path,
            Ghost(conversation_messages(conversation@)),
        )
    }

    /// The conversation that a session document of the CLI is, if it has a
    /// message.
    pub fn parse_session_conversation(session: &Json, source_path: &FilePath) -> (found: Option<
        NormalizedConversation,
    >)
        ensures
            types::held_conversation(found) == session_conversation(session@, source_path@),
    {
        let gathered = gather_session(session);
        finish(session, gathered, source_path, Ghost(session_messages(session@)))
    }

    /// The conversations among some JSON values.
    fn parse_all(values: &Vec<Json>, path: &FilePath) -> (out: Vec<NormalizedConversation>)
        ensures
            types::conversations_of(out@) == singles(json::trees_of(values@), path@),
    {
        broadcast use json::group_trees, types::lemma_conversations_push;

        let ghost trees = json::trees_of(values@);
        let mut out: Vec<NormalizedConversation> = Vec::new();
        let mut i: usize = 0;
        assert(types::conversations_of(out@) =~= singles(trees.take(0), path@));
        while i < values.len()
            invariant
                i <= values.len(),
                trees == json::trees_of(values@),
                types::conversations_of(out@) == singles(trees.take(i as int), path@),
            decreases values.len() - i,
        {
            assert(trees.take(i + 1).drop_last() =~= trees.take(i as int));
            assert(trees.take(i + 1).last() == values[i as int]@);
            if let Some(conversation) = Self::parse_single_conversation(&values[i], path) {
                out.push(conversation);
            }
            i += 1;
        }
        assert(trees.take(i as int) =~= trees);
        out
    }

    /// The conversations that a document lists, if it lists any values.
    fn parse_listed(value: &Json, path: &FilePath) -> (out: Option<Vec<NormalizedConversation>>)
        ensures
            match listed_values(value@) {
                Some(list) => out matches Some(found) && types::conversations_of(found@) == singles(
                    list,
                    path@,
                ),
                None => out is None,
            },
    {
        if let Some(list) = value.as_array() {
            return Some(Self::parse_all(list, path));
        }
        match value.array_at("conversations") {
            Some(list) => Some(Self::parse_all(list, path)),
            None => None,
        }
    }

    /// The conversations of an exported document.
    pub fn parse_exported_value(value: &Json, path: &FilePath) -> (out: Vec<NormalizedConversation>)
        ensures
            types::conversations_of(out@) == exported(value@, path@),
    {
        if let Some(list) = Self::parse_listed(value, path) {
            return list;
        }
        if value.get("id").is_some() || value.get("turns").is_some() {
            list_of(Self::parse_single_conversation(value, path))
        } else {
            list_of(None)
        }
    }

    /// The conversations of a document of the CLI.
    pub fn parse_conversation_file_from_value(value: &Json, path: &FilePath) -> (out: Vec<
        NormalizedConversation,
    >)
        ensures
            types::conversations_of(out@) == chat_style(value@, path@),
    {
        if let Some(list) = Self::parse_listed(value, path) {
            return list;
        }
        if value.get("id").is_some() || value.get("turns").is_some() || value.get(
            "messages",
        ).is_some() || value.array_at("conversation").is_some() {
            list_of(Self::parse_session_conversation(value, path))
        } else {
            list_of(None)
        }
    }

    /// The conversations of an exported file: an array of conversations, one
    /// conversation, or an object with an array of them.
    pub fn parse_conversation_file(path: &FilePath, disk: &Disk) -> (outcome: Result<
        Vec<NormalizedConversation>,
        SessionError,
    >)
        ensures
            copilot::seen_outcome(outcome) == exported_file(disk@.text(path@), path@),
    {
        match disk.text(path) {
            None => Err(SessionError::Unreadable),
            Some(said) => match document::parse_json(said.as_str()) {
                None => Err(SessionError::NotJson),
                Some(value) => Ok(Self::parse_exported_value(&value, path)),
            },
        }
    }
}

} // verus!
