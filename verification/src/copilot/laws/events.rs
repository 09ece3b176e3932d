//! What holds of every conversation of the Copilot CLI.
use crate::content;
use crate::copilot::chat;
use crate::copilot::cli;
use crate::copilot::laws::chats;
use crate::copilot::SessionError;
use crate::document;
use crate::json::Tree;
use crate::paths;
use crate::text;
use crate::text::laws;
use crate::timeline;
use crate::types;
use crate::types::{ConversationView, MessageView};
use vstd::prelude::*;

verus! {

/// An explicit role decides: `user` and `human` are the user, and any other is the
/// assistant. Without one the type decides, in lower case: one that holds `user`
/// or is `prompt` is the user's, and one that holds `assistant` or is `response`
/// or `completion` the assistant's. An event of no role says nothing.
pub proof fn law_the_role_of_an_event(event: Tree, lower: Seq<char>, role: Seq<char>)
    ensures
        event.text_at("role"@) == Some(role) ==> cli::event_message(event, lower).0 == (if role
            == "user"@ || role == "human"@ {
            "user"@
        } else {
            "assistant"@
        }),
        event.text_at("role"@) is None ==> cli::event_message(event, lower).0 == (if text::occurs(
            lower,
            "user"@,
        ) || lower == "prompt"@ {
            "user"@
        } else if text::occurs(lower, "assistant"@) || lower == "response"@ || lower
            == "completion"@ {
            "assistant"@
        } else {
            Seq::empty()
        }),
        event.text_at("role"@) is None && cli::event_message(event, lower).0.len() == 0
            ==> cli::event_message(event, lower).1.len() == 0,
{
    reveal_strlit("user");
    reveal_strlit("assistant");
    reveal_strlit("userpromptsubmitted");
    reveal_strlit("assistantresponse");
    assert("userpromptsubmitted"@.subrange(0, 4) =~= "user"@);
    assert(text::stands_at("userpromptsubmitted"@, "user"@, 0));
    assert("assistantresponse"@.subrange(0, 9) =~= "assistant"@);
    assert(text::stands_at("assistantresponse"@, "assistant"@, 0));
}

/// An event says its message; only where that is white space, its prompt and,
/// where that is empty, its output.
pub proof fn law_the_text_of_an_event(
    event: Tree,
    lower: Seq<char>,
    prompt: Seq<char>,
    output: Seq<char>,
)
    requires
        cli::event_message(event, lower).0.len() > 0,
        prompt == match event.field_or("prompt"@, "initialPrompt"@) {
            Some(value) => content::flat(value),
            None => Seq::empty(),
        },
        output == match event.field_or("output"@, "result"@) {
            Some(value) => content::flat(value),
            None => Seq::empty(),
        },
    ensures
        cli::event_message(event, lower).1 == (if !laws::all_white(chat::message_text(event)) {
            chat::message_text(event)
        } else if prompt.len() > 0 {
            prompt
        } else if output.len() > 0 {
            output
        } else {
            chat::message_text(event)
        }),
{
    laws::law_blank_texts_are_white_space(chat::message_text(event));
}

/// The type of an event in lower case, by which its role is told.
pub open spec fn type_of(event: Tree) -> Seq<char> {
    match event.text_at("type"@) {
        Some(kind) => text::lowered(kind),
        None => text::lowered(""@),
    }
}

/// What one event is: a message by the user or by Copilot with the role, the text
/// and the time of the event, or none where it says nothing.
pub open spec fn one_event(event: Tree) -> Seq<MessageView> {
    let role = cli::event_message(event, type_of(event)).0;
    let said = cli::event_message(event, type_of(event)).1;
    if role.len() == 0 || laws::all_white(said) {
        Seq::empty()
    } else {
        seq![
            chats::spoken(
                role,
                Some(
                    if role == "user"@ {
                        "user"@
                    } else {
                        "copilot"@
                    },
                ),
                chat::turn_stamp(event),
                said,
                event,
                Seq::empty(),
            ),
        ]
    }
}

proof fn lemma_events_add(a: Seq<Tree>, b: Seq<Tree>)
    ensures
        cli::events_messages(a + b) == cli::events_messages(a) + cli::events_messages(b),
    decreases b.len(),
{
    if b.len() == 0 {
        assert(a + b =~= a);
        assert(cli::events_messages(a) + cli::events_messages(b) =~= cli::events_messages(a));
    } else {
        lemma_events_add(a, b.drop_last());
        assert((a + b).drop_last() =~= a + b.drop_last());
        assert((a + b).last() == b.last());
        assert(cli::events_messages(a + b) =~= cli::events_messages(a) + cli::events_messages(b));
    }
}

/// Events are taken one by one and in order.
pub proof fn law_events_are_taken_one_by_one(before: Seq<Tree>, event: Tree, behind: Seq<Tree>)
    ensures
        cli::events_messages(before + seq![event] + behind) == cli::events_messages(before)
            + one_event(event) + cli::events_messages(behind),
{
    lemma_events_add(before + seq![event], behind);
    lemma_events_add(before, seq![event]);
    laws::law_blank_texts_are_white_space(cli::event_message(event, type_of(event)).1);
    assert(seq![event].drop_last() =~= Seq::empty());
    assert(cli::events_messages(Seq::empty()) =~= Seq::empty());
    assert(cli::events_messages(seq![event]) =~= one_event(event));
}

proof fn lemma_messages_stem(events: Seq<Tree>)
    ensures
        forall|i: int|
            0 <= i < cli::events_messages(events).len() ==> {
                let message = #[trigger] cli::events_messages(events)[i];
                &&& events.contains(message.extra)
                &&& one_event(message.extra) == seq![message]
            },
    decreases events.len(),
{
    if events.len() > 0 {
        let earlier = events.drop_last();
        let event = events.last();
        let before = cli::events_messages(earlier);
        let out = cli::events_messages(events);
        lemma_messages_stem(earlier);
        law_events_are_taken_one_by_one(earlier, event, Seq::empty());
        assert(earlier + seq![event] + Seq::empty() =~= events);
        assert(cli::events_messages(Seq::empty()) =~= Seq::empty());
        assert(events[events.len() - 1] == event);
        assert forall|i: int| 0 <= i < out.len() implies ({
            let message = #[trigger] out[i];
            &&& events.contains(message.extra)
            &&& one_event(message.extra) == seq![message]
        }) by {
            if i < before.len() {
                assert(out[i] == before[i]);
                let k = choose|k: int| 0 <= k < earlier.len() && earlier[k] == before[i].extra;
                assert(events[k] == out[i].extra);
            } else {
                assert(out[i] == one_event(event)[0]);
                assert(one_event(event) =~= seq![out[i]]);
            }
        }
    }
}

/// Whether a value has a time under a field and under none that is looked at
/// before it.
pub open spec fn timed(value: Tree, field: int, at: i64) -> bool {
    &&& 0 <= field < chats::time_fields().len()
    &&& content::stamp_at(value, chats::time_fields()[field]) == Some(at)
    &&& forall|j: int|
        0 <= j < field ==> content::stamp_at(value, #[trigger] chats::time_fields()[j]) is None
}

/// Every message of a conversation of the CLI has the time of the event that it
/// keeps: that of the first field of the event that has one, and none where no
/// field has. An integer `timestamp` is such a time.
pub proof fn law_messages_have_the_time_of_their_event(
    events: Seq<Tree>,
    external_id: Option<Seq<char>>,
    workspace: Option<Seq<char>>,
    path: Seq<Seq<char>>,
    at: int,
    field: int,
    time: i64,
)
    requires
        cli::events_conversation(events, external_id, workspace, path).len() == 1,
        0 <= at < cli::events_conversation(events, external_id, workspace, path)[0].messages.len(),
    ensures
        ({
            let message = cli::events_conversation(
                events,
                external_id,
                workspace,
                path,
            )[0].messages[at];
            &&& events.contains(message.extra)
            &&& timed(message.extra, field, time) ==> message.created_at == Some(time)
            &&& message.extra.field("timestamp"@) == Some(Tree::NegInt(time)) || (time >= 0
                && message.extra.field("timestamp"@) == Some(Tree::UInt(time as u64)))
                ==> message.created_at == Some(time)
            &&& (forall|j: int|
                0 <= j < chats::time_fields().len() ==> content::stamp_at(
                    message.extra,
                    #[trigger] chats::time_fields()[j],
                ) is None) ==> message.created_at is None
        }),
{
    let drafts = cli::events_messages(events);
    let message = types::numbered(drafts)[at];
    lemma_messages_stem(events);
    assert(drafts[at].extra == message.extra);
    assert(one_event(drafts[at].extra) == seq![drafts[at]]);
    assert(one_event(message.extra)[0] == drafts[at]);
    if timed(message.extra, field, time) {
        chats::law_the_first_time_field_counts(message.extra, field);
    }
    assert(chats::time_fields()[0] == "timestamp"@);
    if content::stamp_at(message.extra, "timestamp"@) is Some {
        chats::law_the_first_time_field_counts(message.extra, 0);
    }
    if forall|j: int|
        0 <= j < chats::time_fields().len() ==> content::stamp_at(
            message.extra,
            #[trigger] chats::time_fields()[j],
        ) is None {
        chats::law_the_first_time_field_counts(
            message.extra,
            chats::time_fields().len() as int,
        );
    }
}

/// Whether some time is the first and another the last of those of some events,
/// messages or not.
pub open spec fn event_bounds(events: Seq<Tree>, first: Option<i64>, last: Option<i64>) -> bool {
    &&& first is Some && last is Some
    &&& exists|i: int|
        0 <= i < events.len() && chat::turn_stamp(#[trigger] events[i]) == first
    &&& exists|i: int| 0 <= i < events.len() && chat::turn_stamp(#[trigger] events[i]) == last
    &&& forall|i: int|
        0 <= i < events.len() && chat::turn_stamp(#[trigger] events[i]) is Some ==> first->Some_0
            <= chat::turn_stamp(events[i])->Some_0 <= last->Some_0
}

/// Whether no event has a time.
pub open spec fn timeless(events: Seq<Tree>) -> bool {
    forall|i: int| 0 <= i < events.len() ==> chat::turn_stamp(#[trigger] events[i]) is None
}

proof fn lemma_event_bounds(events: Seq<Tree>)
    ensures
        timeless(events) ==> timeline::earliest(cli::events_stamps(events)) is None
            && timeline::latest(cli::events_stamps(events)) is None,
        !timeless(events) ==> event_bounds(
            events,
            timeline::earliest(cli::events_stamps(events)),
            timeline::latest(cli::events_stamps(events)),
        ),
{
    let stamps = cli::events_stamps(events);
    timeline::law_bounds_enclose(stamps);
    if timeless(events) {
        if timeline::earliest(stamps) is Some {
            let i = choose|i: int| 0 <= i < stamps.len() && (#[trigger] stamps[i]) is Some;
            assert(chat::turn_stamp(events[i]) is None);
        }
    } else {
        let k = choose|k: int|
            0 <= k < events.len() && !(chat::turn_stamp(#[trigger] events[k]) is None);
        assert(stamps[k] is Some);
        let i = choose|i: int| 0 <= i < stamps.len() && stamps[i] == timeline::earliest(stamps);
        assert(chat::turn_stamp(events[i]) == timeline::earliest(stamps));
        let j = choose|j: int| 0 <= j < stamps.len() && stamps[j] == timeline::latest(stamps);
        assert(chat::turn_stamp(events[j]) == timeline::latest(stamps));
        assert forall|n: int|
            0 <= n < events.len() && chat::turn_stamp(
                #[trigger] events[n],
            ) is Some implies timeline::earliest(stamps)->Some_0 <= chat::turn_stamp(
            events[n],
        )->Some_0 <= timeline::latest(stamps)->Some_0 by {
            assert(stamps[n] is Some);
        }
    }
}

/// Events of which one is a message are one conversation of Copilot with all of
/// them, under the name and in the workspace given. It lasts from the first event
/// to the last, and its title is what the user says first.
pub proof fn law_events_make_a_conversation(
    events: Seq<Tree>,
    external_id: Option<Seq<char>>,
    workspace: Option<Seq<char>>,
    path: Seq<Seq<char>>,
)
    ensures
        cli::events_messages(events).len() == 0 ==> cli::events_conversation(
            events,
            external_id,
            workspace,
            path,
        ).len() == 0,
        cli::events_messages(events).len() > 0 ==> cli::events_conversation(
            events,
            external_id,
            workspace,
            path,
        ).len() == 1 && ({
            let found = cli::events_conversation(events, external_id, workspace, path)[0];
            &&& chats::carries(found, cli::events_messages(events))
            &&& found.agent_slug == "copilot"@
            &&& found.external_id == external_id
            &&& found.workspace == workspace
            &&& found.source_path == path
            &&& found.title == types::user_title(cli::events_messages(events))
            &&& found.metadata == Tree::Object(map!["source"@ => Tree::Text("copilot-cli"@)])
            &&& !timeless(events) ==> event_bounds(events, found.started_at, found.ended_at)
            &&& timeless(events) ==> found.started_at is None && found.ended_at is None
        }),
{
    lemma_event_bounds(events);
    assert(Map::<Seq<char>, Tree>::empty().insert("source"@, Tree::Text("copilot-cli"@)) =~= map![
        "source"@ => Tree::Text("copilot-cli"@),
    ]);
}

/// The text that a value is, if it is one.
pub open spec fn said_in(value: Option<Tree>) -> Option<Seq<char>> {
    match value {
        Some(Tree::Text(said)) => Some(said),
        _ => None,
    }
}

proof fn lemma_first_session(events: Seq<Tree>, at: int)
    requires
        0 <= at <= events.len(),
        forall|j: int|
            0 <= j < at ==> said_in((#[trigger] events[j]).field_or("session_id"@, "sessionId"@))
                is None,
        at < events.len() ==> said_in(events[at].field_or("session_id"@, "sessionId"@)) is Some,
    ensures
        cli::events_session(events) == if at < events.len() {
            said_in(events[at].field_or("session_id"@, "sessionId"@))
        } else {
            None
        },
    decreases events.len(),
{
    if events.len() > 0 {
        let earlier = events.drop_last();
        assert(events[events.len() - 1] == events.last());
        let k = if at < events.len() - 1 {
            at
        } else {
            events.len() - 1
        };
        lemma_first_session(earlier, k);
    }
}

proof fn lemma_first_workspace(events: Seq<Tree>, at: int)
    requires
        0 <= at <= events.len(),
        forall|j: int|
            0 <= j < at ==> said_in(
                (#[trigger] events[j]).field_or_or("cwd"@, "workingDirectory"@, "workspace"@),
            ) is None,
        at < events.len() ==> said_in(
            events[at].field_or_or("cwd"@, "workingDirectory"@, "workspace"@),
        ) is Some,
    ensures
        cli::events_workspace(events) == if at < events.len() {
            said_in(events[at].field_or_or("cwd"@, "workingDirectory"@, "workspace"@))
        } else {
            None
        },
    decreases events.len(),
{
    if events.len() > 0 {
        let earlier = events.drop_last();
        assert(events[events.len() - 1] == events.last());
        let k = if at < events.len() - 1 {
            at
        } else {
            events.len() - 1
        };
        lemma_first_workspace(earlier, k);
    }
}

/// The session of a log is the one that its first event to name one names, and
/// else the directory that holds the log. Its workspace is the one that its first
/// event to name one names.
pub proof fn law_the_first_event_to_name_it_names_it(
    events: Seq<Tree>,
    path: Seq<Seq<char>>,
    session: int,
    place: int,
)
    requires
        cli::log_conversation(events, path).len() > 0,
        0 <= session <= events.len(),
        forall|j: int|
            0 <= j < session ==> said_in(
                (#[trigger] events[j]).field_or("session_id"@, "sessionId"@),
            ) is None,
        session < events.len() ==> said_in(
            events[session].field_or("session_id"@, "sessionId"@),
        ) is Some,
        0 <= place <= events.len(),
        forall|j: int|
            0 <= j < place ==> said_in(
                (#[trigger] events[j]).field_or_or("cwd"@, "workingDirectory"@, "workspace"@),
            ) is None,
        place < events.len() ==> said_in(
            events[place].field_or_or("cwd"@, "workingDirectory"@, "workspace"@),
        ) is Some,
    ensures
        cli::log_conversation(events, path).len() == 1,
        cli::log_conversation(events, path)[0].external_id == if session < events.len() {
            said_in(events[session].field_or("session_id"@, "sessionId"@))
        } else {
            paths::name_in(paths::parent_of(path))
        },
        cli::log_conversation(events, path)[0].workspace == if place < events.len() {
            said_in(events[place].field_or_or("cwd"@, "workingDirectory"@, "workspace"@))
        } else {
            None
        },
        chats::carries(cli::log_conversation(events, path)[0], cli::events_messages(events)),
{
    lemma_first_session(events, session);
    lemma_first_workspace(events, place);
    law_events_make_a_conversation(
        events,
        cli::log_conversation(events, path)[0].external_id,
        cli::log_conversation(events, path)[0].workspace,
        path,
    );
}

/// A session document with turns, messages, conversations or a conversation array
/// is read as a chat, and so is one without events and history. Any other is the
/// conversation of its events, or else of its history, named by itself or else by
/// its file, in the workspace that it names.
pub proof fn law_session_documents(value: Tree, path: Seq<Seq<char>>, events: Seq<Tree>)
    ensures
        value.field("turns"@) is Some || value.field("messages"@) is Some || value.field(
            "conversations"@,
        ) is Some || value.items_at("conversation"@) is Some || (value.items_at("events"@) is None
            && value.items_at("history"@) is None) ==> cli::session_document(value, path)
            == chat::chat_style(value, path),
        value.field("turns"@) is None && value.field("messages"@) is None && value.field(
            "conversations"@,
        ) is None && value.items_at("conversation"@) is None && (value.items_at("events"@) == Some(
            events,
        ) || (value.items_at("events"@) is None && value.items_at("history"@) == Some(events)))
            ==> cli::session_document(value, path) == cli::events_conversation(
            events,
            match said_in(value.field_or_or("session_id"@, "sessionId"@, "id"@)) {
                Some(id) => Some(id),
                None => paths::stem_of(path),
            },
            match value.field("cwd"@) {
                Some(cwd) => said_in(Some(cwd)),
                None => said_in(
                    value.field_or_or("workingDirectory"@, "workspace"@, "workspacePath"@),
                ),
            },
            path,
        ),
{
}

/// A file of the CLI that cannot be read is told. One that is a JSON document, and
/// neither by its extension a log of lines nor a document that starts otherwise
/// than with a bracket behind white space, is a session document; any other is a
/// log, of which each line that is a document is an event.
pub proof fn law_files_of_the_cli(said: Seq<char>, path: Seq<Seq<char>>, at: int)
    requires
        0 <= at <= said.len(),
        laws::all_white(said.take(at)),
        at < said.len() ==> !text::is_white(said[at]),
    ensures
        cli::cli_file(None, path) == Err::<Seq<ConversationView>, SessionError>(
            SessionError::Unreadable,
        ),
        cli::cli_file(Some(said), path) == Ok::<Seq<ConversationView>, SessionError>(
            match document::json_document(said) {
                Some(value) if !paths::lines_look(path) && at < said.len() && (said[at] == '{'
                    || said[at] == '[') => cli::session_document(value, path),
                _ => cli::log_conversation(cli::log_events(said), path),
            },
        ),
{
    assert forall|j: int| 0 <= j < at implies text::is_white(#[trigger] said[j]) by {
        assert(said.take(at)[j] == said[j]);
    }
    text::lemma_trimmed_start(said, at);
}

/// The events of a log are the documents of its lines, without the white space
/// around them, that are documents.
pub proof fn law_a_log_has_an_event_a_line(said: Seq<char>)
    ensures
        cli::log_events(said) == document::read_ones(
            text::lines_of(said).filter(|line: Seq<char>| !laws::all_white(line)).map_values(
                |line: Seq<char>| document::json_document(text::trimmed(line)),
            ),
        ),
{
    laws::law_blank_lines_are_left_out(text::lines_of(said));
    let kept = text::lines_of(said).filter(|line: Seq<char>| !laws::all_white(line));
    assert(document::line_documents(kept.map_values(|line: Seq<char>| text::trimmed(line)))
        =~= kept.map_values(|line: Seq<char>| document::json_document(text::trimmed(line))));
}

/// A path is a log of the CLI where its extension is `jsonl` or its text in lower
/// case holds `session-state`, and nowhere else.
pub proof fn law_logs_of_the_cli_are_known_by_their_path(path: Seq<Seq<char>>, lower: Seq<char>)
    ensures
        cli::cli_look(path, lower) <==> paths::extension_of(path) == Some("jsonl"@) || text::occurs(
            lower,
            "session-state"@,
        ),
{
    reveal_strlit("jsonl");
    reveal_strlit("events.jsonl");
    reveal_strlit("session-state");
    reveal_strlit("history-session-state");
    if text::occurs(lower, "history-session-state"@) {
        let at = choose|at: int| text::stands_at(lower, "history-session-state"@, at);
        assert("history-session-state"@.subrange(8, 21) =~= "session-state"@);
        assert(lower.subrange(at + 8, at + 21) =~= lower.subrange(at, at + 21).subrange(8, 21));
        assert(text::stands_at(lower, "session-state"@, at + 8));
    }
    if paths::name_of(path) == Some("events.jsonl"@) {
        let stem = "events.jsonl"@.take(6);
        assert("events.jsonl"@ =~= stem + seq!['.'] + "jsonl"@);
        assert(!"jsonl"@.contains('.'));
        paths::laws::law_the_last_dot_parts_a_name(path, stem, "jsonl"@);
    }
}

} // verus!
