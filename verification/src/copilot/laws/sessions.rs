//! What holds of every session of VS Code's own storage.
use crate::content;
use crate::copilot::chat;
use crate::copilot::laws::chats;
use crate::copilot::native;
use crate::copilot::uri;
use crate::copilot::SessionError;
use crate::disk::DiskView;
use crate::document;
use crate::json::Tree;
use crate::paths;
use crate::text;
use crate::text::laws;
use crate::timeline;
use crate::types;
use crate::types::{ConversationView, InvocationView, MessageView};
use crate::vscode_chat;
use vstd::prelude::*;

verus! {

/// A text says itself and an object its `text`; a value with neither says what
/// its `parts` say, if they say anything.
pub proof fn law_the_text_of_a_value(value: Tree, said: Seq<char>)
    ensures
        native::value_text(Tree::Text(said)) == Some(said),
        value.text_at("text"@) == Some(said) ==> native::value_text(value) == Some(said),
        !(value is Text) && value.text_at("text"@) is None ==> native::value_text(value) == (
        match value.field("parts"@) {
            Some(parts) => if content::flat(parts).len() > 0 {
                Some(content::flat(parts))
            } else {
                None
            },
            None => None,
        }),
{
}

/// A name is Copilot's just when it is `github-copilot` or holds
/// `github.copilot-chat` or `github copilot`, in any case.
pub proof fn law_the_names_of_copilot(name: Seq<char>)
    ensures
        native::copilot_name(name) <==> text::ascii_lowered(name) == "github-copilot"@
            || text::occurs(text::ascii_lowered(name), "github.copilot-chat"@) || text::occurs(
            text::ascii_lowered(name),
            "github copilot"@,
        ),
{
    let lower = text::ascii_lowered(name);
    assert(lower.subrange(0, lower.len() as int) =~= lower);
    assert(text::stands_at(lower, lower, 0));
}

/// A value names Copilot where it is a name of Copilot, or where what is wrapped
/// in its `value` names Copilot; nothing else does.
pub proof fn law_names_may_be_wrapped(value: Tree, name: Seq<char>)
    ensures
        native::names_copilot(Tree::Text(name)) == native::copilot_name(name),
        value.field("value"@) matches Some(inner) ==> native::names_copilot(value)
            == native::names_copilot(inner),
        !(value is Text) && value.field("value"@) is None ==> !native::names_copilot(value),
{
}

/// The fields by which an agent may name Copilot.
pub open spec fn agent_fields() -> Seq<Seq<char>> {
    seq!["id"@, "name"@, "displayName"@, "extensionId"@, "publisher"@]
}

/// Whether an agent or one of the fields that name it names Copilot.
pub open spec fn agent_names_copilot(agent: Tree) -> bool {
    native::names_copilot(agent) || exists|i: int|
        0 <= i < agent_fields().len() && agent.field(#[trigger] agent_fields()[i]) is Some
            && native::names_copilot(agent.field(agent_fields()[i])->Some_0)
}

proof fn lemma_agent(agent: Tree)
    ensures
        native::copilot_agent(agent) <==> agent_names_copilot(agent),
{
    let fields = agent_fields();
    assert(fields[0] == "id"@);
    assert(fields[1] == "name"@);
    assert(fields[2] == "displayName"@);
    assert(fields[3] == "extensionId"@);
    assert(fields[4] == "publisher"@);
    if native::copilot_agent(agent) && !native::names_copilot(agent) {
        let i: int = if native::names_copilot_in(agent.field("id"@)) {
            0
        } else if native::names_copilot_in(agent.field("name"@)) {
            1
        } else if native::names_copilot_in(agent.field("displayName"@)) {
            2
        } else if native::names_copilot_in(agent.field("extensionId"@)) {
            3
        } else {
            4
        };
        assert(agent.field(fields[i]) is Some);
    }
}

/// A session is Copilot's just when its responder, or the agent of one of its
/// requests, names Copilot.
pub proof fn law_copilot_shows_in_a_session(session: Tree, requests: Seq<Tree>)
    requires
        session.items_at("requests"@) == Some(requests) || (session.items_at("requests"@) is None
            && requests.len() == 0),
    ensures
        native::copilot_session(session) <==> (session.field("responderUsername"@) is Some
            && native::names_copilot(session.field("responderUsername"@)->Some_0)) || exists|i: int|
            0 <= i < requests.len() && (#[trigger] requests[i]).field("agent"@) is Some
                && agent_names_copilot(requests[i].field("agent"@)->Some_0),
{
    assert forall|i: int| 0 <= i < requests.len() implies native::copilot_request(
        #[trigger] requests[i],
    ) == (requests[i].field("agent"@) is Some && agent_names_copilot(
        requests[i].field("agent"@)->Some_0,
    )) by {
        if let Some(agent) = requests[i].field("agent"@) {
            lemma_agent(agent);
        }
    }
    assert(requests.len() == 0 ==> requests =~= Seq::empty());
}

/// What one part of a response says, unless it is white space only: of markdown
/// its `content`, and of anything else itself.
pub open spec fn one_saying(part: Tree) -> Seq<Seq<char>> {
    let said = if part.text_at("kind"@) == Some("markdownContent"@) {
        match part.field("content"@) {
            Some(inner) => native::value_text(inner),
            None => None,
        }
    } else {
        native::value_text(part)
    };
    match said {
        Some(inner) => if laws::all_white(inner) {
            Seq::empty()
        } else {
            seq![inner]
        },
        None => Seq::empty(),
    }
}

/// The call that one part of a response records: of the tool that it names, with
/// the name and the arguments of the call.
pub open spec fn one_record(part: Tree) -> Seq<InvocationView> {
    if part.text_at("kind"@) == Some("toolInvocationSerialized"@) {
        match part.field_or_or("toolId"@, "toolName"@, "name"@) {
            Some(Tree::Text(name)) => seq![
                InvocationView {
                    kind: "tool"@,
                    name,
                    raw_name: None,
                    call_id: match part.field_or("toolCallId"@, "callId"@) {
                        Some(Tree::Text(id)) => Some(id),
                        _ => None,
                    },
                    arguments: part.field_or("arguments"@, "parameters"@),
                },
            ],
            _ => Seq::empty(),
        }
    } else {
        Seq::empty()
    }
}

proof fn lemma_said_add(a: Seq<Tree>, b: Seq<Tree>)
    ensures
        native::parts_said(a + b) == native::parts_said(a) + native::parts_said(b),
        native::parts_calls(a + b) == native::parts_calls(a) + native::parts_calls(b),
    decreases b.len(),
{
    if b.len() == 0 {
        assert(a + b =~= a);
        assert(native::parts_said(a) + native::parts_said(b) =~= native::parts_said(a));
        assert(native::parts_calls(a) + native::parts_calls(b) =~= native::parts_calls(a));
    } else {
        lemma_said_add(a, b.drop_last());
        assert((a + b).drop_last() =~= a + b.drop_last());
        assert((a + b).last() == b.last());
        assert(native::parts_said(a + b) =~= native::parts_said(a) + native::parts_said(b));
        assert(native::parts_calls(a + b) =~= native::parts_calls(a) + native::parts_calls(b));
    }
}

proof fn lemma_one_part(part: Tree)
    ensures
        native::parts_said(seq![part]) == one_saying(part),
        native::parts_calls(seq![part]) == one_record(part),
{
    assert(seq![part].drop_last() =~= Seq::empty());
    assert(native::parts_said(Seq::empty()) =~= Seq::empty());
    assert(native::parts_calls(Seq::empty()) =~= Seq::empty());
    let said = if part.text_at("kind"@) == Some("markdownContent"@) {
        match part.field("content"@) {
            Some(inner) => native::value_text(inner),
            None => None,
        }
    } else {
        native::value_text(part)
    };
    if let Some(inner) = said {
        laws::law_blank_texts_are_white_space(inner);
    }
    assert(native::parts_said(seq![part]) =~= one_saying(part));
    assert(native::parts_calls(seq![part]) =~= one_record(part));
}

/// The parts of a response are taken one by one and in order, each for what it
/// says and for the call that it records.
pub proof fn law_parts_are_taken_one_by_one(before: Seq<Tree>, part: Tree, behind: Seq<Tree>)
    ensures
        native::parts_said(before + seq![part] + behind) == native::parts_said(before) + one_saying(
            part,
        ) + native::parts_said(behind),
        native::parts_calls(before + seq![part] + behind) == native::parts_calls(before)
            + one_record(part) + native::parts_calls(behind),
{
    lemma_said_add(before + seq![part], behind);
    lemma_said_add(before, seq![part]);
    lemma_one_part(part);
}

/// An array is a response of many parts, and any other value one of a single part.
/// It says what its parts say, a line feed between each two, and calls what its
/// content blocks call and then what its parts record.
pub proof fn law_responses_are_made_of_parts(response: Tree, parts: Seq<Tree>)
    requires
        response == Tree::Array(parts) || (!(response is Array) && parts == seq![response]),
    ensures
        native::response_text(response) == text::joined(native::parts_said(parts)),
        native::response_calls(response) == content::content_calls(response) + native::parts_calls(
            parts,
        ),
{
}

/// The time of a response: that of the request's `responseTimestamp` where it is
/// there, and else that of its own `timestamp`.
pub open spec fn answer_time(request: Tree, response: Tree) -> Option<i64> {
    if request.field("responseTimestamp"@) is Some {
        content::stamp_at(request, "responseTimestamp"@)
    } else {
        content::stamp_at(response, "timestamp"@)
    }
}

/// What the user asks in a request with a message: what the message says, and
/// else what the request does.
pub open spec fn question(request: Tree, message: Tree) -> Seq<char> {
    match native::value_text(message) {
        Some(said) => said,
        None => chat::message_text(request),
    }
}

/// The messages of one request: the question, as the user's, unless it is white
/// space only, and the response, as Copilot's, unless it says and calls nothing. A
/// request without a message has neither.
pub open spec fn one_request(request: Tree) -> Seq<MessageView> {
    match request.field("message"@) {
        None => Seq::empty(),
        Some(message) => (if laws::all_white(question(request, message)) {
            Seq::empty()
        } else {
            seq![
                chats::spoken(
                    "user"@,
                    Some("user"@),
                    content::stamp_at(request, "timestamp"@),
                    question(request, message),
                    request,
                    Seq::empty(),
                ),
            ]
        }) + (match request.field("response"@) {
            None => Seq::empty(),
            Some(response) => if laws::all_white(native::response_text(response))
                && native::response_calls(response).len() == 0 {
                Seq::empty()
            } else {
                seq![
                    chats::spoken(
                        "assistant"@,
                        Some("copilot"@),
                        answer_time(request, response),
                        native::response_text(response),
                        response,
                        native::response_calls(response),
                    ),
                ]
            },
        }),
    }
}

proof fn lemma_requests_add(a: Seq<Tree>, b: Seq<Tree>)
    ensures
        native::requests_messages(a + b) == native::requests_messages(a)
            + native::requests_messages(b),
    decreases b.len(),
{
    if b.len() == 0 {
        assert(a + b =~= a);
        assert(native::requests_messages(a) + native::requests_messages(b)
            =~= native::requests_messages(a));
    } else {
        lemma_requests_add(a, b.drop_last());
        assert((a + b).drop_last() =~= a + b.drop_last());
        assert((a + b).last() == b.last());
        assert(native::requests_messages(a + b) =~= native::requests_messages(a)
            + native::requests_messages(b));
    }
}

proof fn lemma_one_request(request: Tree)
    ensures
        native::asked(request) + native::answered(request) == one_request(request),
        native::requests_messages(seq![request]) == one_request(request),
{
    if let Some(message) = request.field("message"@) {
        laws::law_blank_texts_are_white_space(question(request, message));
        if let Some(response) = request.field("response"@) {
            laws::law_blank_texts_are_white_space(native::response_text(response));
        }
    }
    assert(native::asked(request) + native::answered(request) =~= one_request(request));
    assert(seq![request].drop_last() =~= Seq::empty());
    assert(native::requests_messages(Seq::empty()) =~= Seq::empty());
    assert(native::requests_messages(seq![request]) =~= native::asked(request) + native::answered(
        request,
    ));
}

/// Requests are taken one by one and in order.
pub proof fn law_requests_are_taken_one_by_one(
    before: Seq<Tree>,
    request: Tree,
    behind: Seq<Tree>,
)
    ensures
        native::requests_messages(before + seq![request] + behind) == native::requests_messages(
            before,
        ) + one_request(request) + native::requests_messages(behind),
{
    lemma_requests_add(before + seq![request], behind);
    lemma_requests_add(before, seq![request]);
    lemma_one_request(request);
}

/// A request with a message and a response that both say something is two
/// messages of its session, next to each other: what the user asks, by the user,
/// and what the response says, by Copilot as the assistant.
pub proof fn law_a_question_comes_before_its_answer(
    session: Tree,
    path: Seq<Seq<char>>,
    workspace: Option<Seq<char>>,
    storage: Seq<char>,
    before: Seq<Tree>,
    request: Tree,
    behind: Seq<Tree>,
    message: Tree,
    response: Tree,
)
    requires
        session.items_at("requests"@) == Some(before + seq![request] + behind),
        native::copilot_session(session),
        request.field("message"@) == Some(message),
        request.field("response"@) == Some(response),
        !laws::all_white(question(request, message)),
        !laws::all_white(native::response_text(response)),
    ensures
        native::session_conversation(session, path, workspace, storage) is Some,
        ({
            let messages = native::session_conversation(
                session,
                path,
                workspace,
                storage,
            )->Some_0.messages;
            let at = native::requests_messages(before).len() as int;
            &&& messages.len() == at + 2 + native::requests_messages(behind).len()
            &&& messages[at].role == "user"@
            &&& messages[at].author == Some("user"@)
            &&& messages[at].content == question(request, message)
            &&& messages[at].extra == request
            &&& messages[at + 1].role == "assistant"@
            &&& messages[at + 1].author == Some("copilot"@)
            &&& messages[at + 1].content == native::response_text(response)
            &&& messages[at + 1].extra == response
        }),
{
    let all = before + seq![request] + behind;
    law_requests_are_taken_one_by_one(before, request, behind);
    let at = native::requests_messages(before).len() as int;
    assert(native::requests_messages(all)[at] == one_request(request)[0]);
    assert(native::requests_messages(all)[at + 1] == one_request(request)[1]);
}

/// Every message of a session is either the user's, by the user and of a request,
/// or the assistant's, by Copilot and of the response to a request.
pub proof fn law_sides_are_told_apart(requests: Seq<Tree>, at: int)
    requires
        0 <= at < native::requests_messages(requests).len(),
    ensures
        ({
            let message = native::requests_messages(requests)[at];
            ||| message.role == "user"@ && message.author == Some("user"@) && requests.contains(
                message.extra,
            )
            ||| message.role == "assistant"@ && message.author == Some("copilot"@) && exists|k: int|
                0 <= k < requests.len() && (#[trigger] requests[k]).field("response"@) == Some(
                    message.extra,
                )
        }),
    decreases requests.len(),
{
    let earlier = requests.drop_last();
    let request = requests.last();
    let count = native::requests_messages(earlier).len();
    law_requests_are_taken_one_by_one(earlier, request, Seq::empty());
    assert(earlier + seq![request] + Seq::empty() =~= requests);
    assert(native::requests_messages(Seq::empty()) =~= Seq::empty());
    assert(requests[requests.len() - 1] == request);
    let message = native::requests_messages(requests)[at];
    if at < count {
        law_sides_are_told_apart(earlier, at);
        assert(message == native::requests_messages(earlier)[at]);
        if message.role == "user"@ && message.author == Some("user"@) && earlier.contains(
            message.extra,
        ) {
            let k = choose|k: int| 0 <= k < earlier.len() && earlier[k] == message.extra;
            assert(requests[k] == message.extra);
        } else {
            let k = choose|k: int|
                0 <= k < earlier.len() && (#[trigger] earlier[k]).field("response"@) == Some(
                    message.extra,
                );
            assert(requests[k] == earlier[k]);
        }
    } else {
        assert(message == one_request(request)[at - count]);
    }
}

/// Whether a time is one of a session: when it was made, when a request was made
/// that says something, or when a request that has a message was answered.
pub open spec fn is_time(created: Option<i64>, requests: Seq<Tree>, time: i64) -> bool {
    ||| created == Some(time)
    ||| exists|k: int| 0 <= k < requests.len() && #[trigger] is_request_time(requests[k], time)
}

/// Whether a time is one of a request.
pub open spec fn is_request_time(request: Tree, time: i64) -> bool {
    &&& request.field("message"@) is Some
    &&& {
        ||| content::stamp_at(request, "timestamp"@) == Some(time) && !laws::all_white(
            question(request, request.field("message"@)->Some_0),
        )
        ||| request.field("response"@) is Some && answer_time(
            request,
            request.field("response"@)->Some_0,
        ) == Some(time)
    }
}

proof fn lemma_request_stamps(request: Tree, time: i64)
    ensures
        (types::stamps_of(native::asked(request)) + native::answer_stamps(request)).contains(
            Some(time),
        ) <==> is_request_time(request, time),
{
    let asked = types::stamps_of(native::asked(request));
    let answered = native::answer_stamps(request);
    let all = asked + answered;
    if let Some(message) = request.field("message"@) {
        laws::law_blank_texts_are_white_space(question(request, message));
        if !laws::all_white(question(request, message)) {
            assert(asked =~= seq![content::stamp_at(request, "timestamp"@)]);
            assert(all[0] == content::stamp_at(request, "timestamp"@));
        } else {
            assert(asked =~= Seq::empty());
        }
        if let Some(response) = request.field("response"@) {
            assert(answered =~= seq![answer_time(request, response)]);
            assert(all[asked.len() as int] == answer_time(request, response));
        } else {
            assert(answered =~= Seq::empty());
        }
    } else {
        assert(all =~= Seq::empty());
    }
    if all.contains(Some(time)) {
        let i = choose|i: int| 0 <= i < all.len() && all[i] == Some(time);
        assert(all[i] == Some(time));
    }
}

proof fn lemma_session_stamps(created: Option<i64>, requests: Seq<Tree>, time: i64)
    ensures
        native::session_stamps(created, requests).contains(Some(time)) <==> is_time(
            created,
            requests,
            time,
        ),
    decreases requests.len(),
{
    let stamps = native::session_stamps(created, requests);
    if requests.len() == 0 {
        assert(stamps =~= seq![created]);
        assert(stamps[0] == created);
    } else {
        let earlier = requests.drop_last();
        let request = requests.last();
        let before = native::session_stamps(created, earlier);
        let more = types::stamps_of(native::asked(request)) + native::answer_stamps(request);
        lemma_session_stamps(created, earlier, time);
        lemma_request_stamps(request, time);
        assert(stamps =~= before + more);
        assert(requests[requests.len() - 1] == request);
        if before.contains(Some(time)) {
            let i = choose|i: int| 0 <= i < before.len() && before[i] == Some(time);
            assert(stamps[i] == Some(time));
        }
        if more.contains(Some(time)) {
            let i = choose|i: int| 0 <= i < more.len() && more[i] == Some(time);
            assert(stamps[before.len() + i] == Some(time));
        }
        if stamps.contains(Some(time)) {
            let i = choose|i: int| 0 <= i < stamps.len() && stamps[i] == Some(time);
            if i < before.len() {
                assert(before[i] == Some(time));
            } else {
                assert(more[i - before.len()] == Some(time));
            }
        }
        if is_time(created, earlier, time) && created != Some(time) {
            let k = choose|k: int|
                0 <= k < earlier.len() && #[trigger] is_request_time(earlier[k], time);
            assert(is_request_time(requests[k], time));
        }
        if is_request_time(request, time) {
            assert(is_request_time(requests[requests.len() - 1], time));
        }
        if is_time(created, requests, time) && created != Some(time) {
            let k = choose|k: int|
                0 <= k < requests.len() && #[trigger] is_request_time(requests[k], time);
            if k < earlier.len() {
                assert(is_request_time(earlier[k], time));
            }
        }
    }
}

/// Whether a session lasts from its first time to its last, and has neither where
/// it has no time.
pub open spec fn lasts(
    created: Option<i64>,
    requests: Seq<Tree>,
    first: Option<i64>,
    last: Option<i64>,
) -> bool {
    &&& first is Some <==> last is Some
    &&& first matches Some(time) ==> is_time(created, requests, time)
    &&& last matches Some(time) ==> is_time(created, requests, time)
    &&& forall|time: i64| #[trigger]
        is_time(created, requests, time) ==> first is Some && last is Some && first->Some_0 <= time
            <= last->Some_0
}

proof fn lemma_lasts(created: Option<i64>, requests: Seq<Tree>)
    ensures
        lasts(
            created,
            requests,
            timeline::earliest(native::session_stamps(created, requests)),
            timeline::latest(native::session_stamps(created, requests)),
        ),
{
    let stamps = native::session_stamps(created, requests);
    let first = timeline::earliest(stamps);
    let last = timeline::latest(stamps);
    timeline::law_bounds_enclose(stamps);
    if first is Some {
        let i = choose|i: int| 0 <= i < stamps.len() && stamps[i] == first;
        assert(stamps.contains(stamps[i]));
        lemma_session_stamps(created, requests, first->Some_0);
        let j = choose|j: int| 0 <= j < stamps.len() && stamps[j] == last;
        assert(stamps.contains(stamps[j]));
        lemma_session_stamps(created, requests, last->Some_0);
    }
    assert forall|time: i64| #[trigger] is_time(created, requests, time) implies first is Some
        && last is Some && first->Some_0 <= time <= last->Some_0 by {
        lemma_session_stamps(created, requests, time);
        let i = choose|i: int| 0 <= i < stamps.len() && stamps[i] == Some(time);
        assert(stamps[i] is Some);
    }
}

/// A session of Copilot with a message is one conversation with the messages of
/// its requests. It has its own name or else that of its file, its own title unless
/// that is empty or else what the user says first, and works in its own directory
/// or else in the one given. It lasts from its first time to its last.
pub proof fn law_sessions_are_conversations(
    session: Tree,
    path: Seq<Seq<char>>,
    workspace: Option<Seq<char>>,
    storage: Seq<char>,
)
    ensures
        native::session_conversation(session, path, workspace, storage) is Some <==> (session
            is Object && native::copilot_session(session) && session.items_at("requests"@) is Some
            && native::requests_messages(session.items_at("requests"@)->Some_0).len() > 0),
        native::session_conversation(session, path, workspace, storage) matches Some(found) ==> {
            let requests = session.items_at("requests"@)->Some_0;
            let messages = native::requests_messages(requests);
            &&& chats::carries(found, messages)
            &&& found.agent_slug == "copilot"@
            &&& found.source_path == path
            &&& found.metadata == Tree::Object(
                map!["source"@ => Tree::Text("copilot"@), "storage"@ => Tree::Text(storage)],
            )
            &&& found.external_id == match session.field_or("sessionId"@, "id"@) {
                Some(Tree::Text(id)) => Some(id),
                _ => paths::stem_of(path),
            }
            &&& found.title == match session.field_or("customTitle"@, "computedTitle"@) {
                Some(Tree::Text(title)) if title.len() > 0 => Some(title),
                _ => types::user_title(messages),
            }
            &&& found.workspace == match session.field("workingDirectory"@) {
                Some(Tree::Text(place)) => Some(place),
                _ => workspace,
            }
            &&& lasts(
                content::stamp_at(session, "creationDate"@),
                requests,
                found.started_at,
                found.ended_at,
            )
        },
{
    if let Some(requests) = session.items_at("requests"@) {
        lemma_lasts(content::stamp_at(session, "creationDate"@), requests);
    }
    reveal_strlit("source");
    reveal_strlit("storage");
    assert("source"@.len() != "storage"@.len());
    assert(Map::<Seq<char>, Tree>::empty().insert("source"@, Tree::Text("copilot"@)).insert(
        "storage"@,
        Tree::Text(storage),
    ) =~= map!["source"@ => Tree::Text("copilot"@), "storage"@ => Tree::Text(storage)]);
}

/// A `workspace.json` names a folder by its `folder` or else `workspaceFolder`;
/// for a session file also by its `workspace`.
pub proof fn law_a_workspace_names_a_folder(value: Tree)
    ensures
        native::session_folder(value) == match value.field_or_or(
            "folder"@,
            "workspaceFolder"@,
            "workspace"@,
        ) {
            Some(Tree::Text(folder)) => uri::uri_path(folder),
            _ => None,
        },
        native::database_folder(value) == match value.field_or("folder"@, "workspaceFolder"@) {
            Some(Tree::Text(folder)) => uri::uri_path(folder),
            _ => None,
        },
{
}

/// The workspace of a session file is named by the `workspace.json` beside the
/// directory that holds it, and that of a database by the one beside it.
pub proof fn law_workspaces_are_named_nearby(
    base: Seq<Seq<char>>,
    folder: Seq<char>,
    name: Seq<char>,
    disk: DiskView,
)
    requires
        base.len() > 0,
        paths::laws::is_name(folder),
        paths::laws::is_name(name),
        folder != ".."@,
        name != ".."@,
    ensures
        native::session_workspace(base.push(folder).push(name), disk) == (match disk.text(
            base.push("workspace.json"@),
        ) {
            Some(said) => match document::json_document(said) {
                Some(value) => native::session_folder(value),
                None => None,
            },
            None => None,
        }),
        native::database_workspace(base.push(name), disk) == (match disk.text(
            base.push("workspace.json"@),
        ) {
            Some(said) => match document::json_document(said) {
                Some(value) => native::database_folder(value),
                None => None,
            },
            None => None,
        }),
{
    reveal_strlit("workspace.json");
    reveal_strlit(".");
    assert("workspace.json"@.len() != "."@.len());
    assert(!"workspace.json"@.contains('/'));
    paths::laws::law_a_step_down_is_undone(base.push(folder), name);
    paths::laws::law_a_step_down_is_undone(base, folder);
    paths::laws::law_a_step_down_is_undone(base, name);
    paths::laws::law_slashes_lead_down(base, "workspace.json"@, Seq::empty());
}

/// A session file that cannot be read is told. One whose extension is that of a
/// log of lines is replayed, and where that fails the failure is told; any other is
/// one JSON document, and where it is none that is told. What was read is a
/// conversation of the storage that the file belongs to.
pub proof fn law_session_files(path: Seq<Seq<char>>, disk: DiskView, said: Seq<char>)
    ensures
        disk.text(path) is None ==> native::native_file(path, disk) == Err::<
            Seq<ConversationView>,
            SessionError,
        >(SessionError::Unreadable),
        disk.text(path) == Some(said) && paths::lines_look(path) ==> match vscode_chat::replayed(
            vscode_chat::log_entries(said),
        ) {
            Err(error) => native::native_file(path, disk) == Err::<
                Seq<ConversationView>,
                SessionError,
            >(SessionError::Replay(error)),
            Ok(session) => native::native_file(path, disk) == Ok::<
                Seq<ConversationView>,
                SessionError,
            >(
                match native::session_conversation(
                    session,
                    path,
                    native::session_workspace(path, disk),
                    "vscode-workspace-jsonl"@,
                ) {
                    Some(found) => seq![found],
                    None => Seq::empty(),
                },
            ),
        },
        disk.text(path) == Some(said) && !paths::lines_look(path) ==> match document::json_document(
            said,
        ) {
            None => native::native_file(path, disk) == Err::<Seq<ConversationView>, SessionError>(
                SessionError::NotJson,
            ),
            Some(session) => native::native_file(path, disk) == Ok::<
                Seq<ConversationView>,
                SessionError,
            >(
                match native::session_conversation(
                    session,
                    path,
                    native::session_workspace(path, disk),
                    "vscode-workspace-json"@,
                ) {
                    Some(found) => seq![found],
                    None => Seq::empty(),
                },
            ),
        },
{
}

/// Whether some session has a name.
pub open spec fn is_named(sessions: Seq<Tree>, id: Seq<char>) -> bool {
    exists|i: int|
        0 <= i < sessions.len() && (#[trigger] sessions[i]).field_or("sessionId"@, "id"@) == Some(
            Tree::Text(id),
        )
}

proof fn lemma_named(sessions: Seq<Tree>, id: Seq<char>)
    ensures
        native::names_session(sessions, id) <==> is_named(sessions, id),
{
    if native::names_session(sessions, id) {
        let i = choose|i: int|
            0 <= i < sessions.len() && native::session_id(#[trigger] sessions[i]) == Some(id);
        assert(sessions[i].field_or("sessionId"@, "id"@) == Some(Tree::Text(id)));
    }
    if is_named(sessions, id) {
        let i = choose|i: int|
            0 <= i < sessions.len() && (#[trigger] sessions[i]).field_or("sessionId"@, "id"@)
                == Some(Tree::Text(id));
        assert(native::session_id(sessions[i]) == Some(id));
    }
}

/// The sessions of a database are taken one by one and in order. One without a
/// name, or with that of an earlier one, is passed over; of any other the
/// conversation is taken, unless it is known to have ended before the time given.
pub proof fn law_sessions_are_taken_one_by_one(
    sessions: Seq<Tree>,
    session: Tree,
    path: Seq<Seq<char>>,
    workspace: Option<Seq<char>>,
    since: Option<i64>,
)
    ensures
        native::database_conversations(Seq::empty(), path, workspace, since).len() == 0,
        native::database_conversations(sessions.push(session), path, workspace, since)
            == native::database_conversations(sessions, path, workspace, since) + (
        match session.field_or("sessionId"@, "id"@) {
            Some(Tree::Text(id)) => if is_named(sessions, id) {
                Seq::empty()
            } else {
                match native::session_conversation(
                    session,
                    paths::under(path, "interactive.sessions#"@ + id),
                    workspace,
                    "vscode-interactive-sessions"@,
                ) {
                    Some(found) => if since is Some && found.ended_at is Some
                        && found.ended_at->Some_0 < since->Some_0 {
                        Seq::empty()
                    } else {
                        seq![found]
                    },
                    None => Seq::empty(),
                }
            },
            _ => Seq::empty(),
        }),
{
    let all = sessions.push(session);
    let before = native::database_conversations(sessions, path, workspace, since);
    assert(all.drop_last() =~= sessions);
    assert(all.last() == session);
    if let Some(Tree::Text(id)) = session.field_or("sessionId"@, "id"@) {
        lemma_named(sessions, id);
    }
    assert(before + Seq::<ConversationView>::empty() =~= before);
    assert forall|found: ConversationView| before.push(found) == #[trigger] (before + seq![found]) by {
        assert(before.push(found) =~= before + seq![found]);
    }
}

proof fn lemma_rows_add(a: Seq<Option<Tree>>, b: Seq<Option<Tree>>)
    ensures
        native::row_sessions(a + b) == native::row_sessions(a) + native::row_sessions(b),
    decreases b.len(),
{
    if b.len() == 0 {
        assert(a + b =~= a);
        assert(native::row_sessions(a) + native::row_sessions(b) =~= native::row_sessions(a));
    } else {
        lemma_rows_add(a, b.drop_last());
        assert((a + b).drop_last() =~= a + b.drop_last());
        assert((a + b).last() == b.last());
        assert(native::row_sessions(a + b) =~= native::row_sessions(a) + native::row_sessions(b));
    }
}

/// The rows of a database are taken one by one and in order: of an array the
/// items, and of anything else nothing. A database without rows to read is told.
pub proof fn law_rows_are_taken_one_by_one(
    before: Seq<Option<Tree>>,
    row: Option<Tree>,
    behind: Seq<Option<Tree>>,
    path: Seq<Seq<char>>,
    since: Option<i64>,
    disk: DiskView,
    rows: Seq<Seq<char>>,
)
    ensures
        native::row_sessions(before + seq![row] + behind) == native::row_sessions(before) + (
        match row {
            Some(Tree::Array(items)) => items,
            _ => Seq::empty(),
        }) + native::row_sessions(behind),
        disk.rows(path) is None ==> native::native_database(path, since, disk) == Err::<
            Seq<ConversationView>,
            SessionError,
        >(SessionError::Unreadable),
        disk.rows(path) == Some(rows) ==> native::native_database(path, since, disk) == Ok::<
            Seq<ConversationView>,
            SessionError,
        >(
            native::database_conversations(
                native::row_sessions(
                    rows.map_values(|said: Seq<char>| document::json_document(said)),
                ),
                path,
                native::database_workspace(path, disk),
                since,
            ),
        ),
{
    lemma_rows_add(before + seq![row], behind);
    lemma_rows_add(before, seq![row]);
    assert(seq![row].drop_last() =~= Seq::empty());
    assert(native::row_sessions(Seq::empty()) =~= Seq::empty());
    assert(native::row_sessions(seq![row]) =~= match row {
        Some(Tree::Array(items)) => items,
        _ => Seq::empty(),
    });
    assert(document::line_documents(rows) =~= rows.map_values(
        |said: Seq<char>| document::json_document(said),
    ));
}

} // verus!
