//! What holds of every exported conversation.
use crate::content;
use crate::copilot::chat;
use crate::json::Tree;
use crate::text::laws;
use crate::timeline;
use crate::types;
use crate::types::{ConversationView, InvocationView, MessageView};
use vstd::prelude::*;

verus! {

/// A message that says something, before it is numbered.
pub open spec fn spoken(
    role: Seq<char>,
    author: Option<Seq<char>>,
    created_at: Option<i64>,
    content: Seq<char>,
    extra: Tree,
    invocations: Seq<InvocationView>,
) -> MessageView {
    MessageView {
        idx: 0,
        role,
        author,
        created_at,
        content,
        extra,
        invocations,
        snippets: Seq::empty(),
    }
}

/// The fields that may hold the time of a message, in the order in which they are
/// looked at.
pub open spec fn time_fields() -> Seq<Seq<char>> {
    seq!["timestamp"@, "createdAt"@, "created_at"@, "time"@, "ts"@, "date"@]
}

/// The fields that may hold the text of a message, in the order in which they are
/// looked at.
pub open spec fn text_fields() -> Seq<Seq<char>> {
    seq!["message"@, "content"@, "text"@, "value"@]
}

/// The time of a message is that of the first field that has one, and unknown
/// where none has.
pub proof fn law_the_first_time_field_counts(value: Tree, at: int)
    requires
        0 <= at <= time_fields().len(),
        forall|j: int|
            0 <= j < at ==> content::stamp_at(value, #[trigger] time_fields()[j]) is None,
        at < time_fields().len() ==> content::stamp_at(value, time_fields()[at]) is Some,
    ensures
        chat::turn_stamp(value) == if at < time_fields().len() {
            content::stamp_at(value, time_fields()[at])
        } else {
            None
        },
{
    assert(time_fields()[0] == "timestamp"@);
    assert(time_fields()[1] == "createdAt"@);
    assert(time_fields()[2] == "created_at"@);
    assert(time_fields()[3] == "time"@);
    assert(time_fields()[4] == "ts"@);
    assert(time_fields()[5] == "date"@);
}

/// The text of a message is that of the first field that has any, and empty where
/// none has.
pub proof fn law_the_first_text_field_counts(value: Tree, at: int)
    requires
        0 <= at <= text_fields().len(),
        forall|j: int|
            0 <= j < at ==> content::flat_at(value, #[trigger] text_fields()[j]).len() == 0,
        at < text_fields().len() ==> content::flat_at(value, text_fields()[at]).len() > 0,
    ensures
        chat::message_text(value) == if at < text_fields().len() {
            content::flat_at(value, text_fields()[at])
        } else {
            Seq::empty()
        },
{
    assert(text_fields()[0] == "message"@);
    assert(text_fields()[1] == "content"@);
    assert(text_fields()[2] == "text"@);
    assert(text_fields()[3] == "value"@);
    assert(chat::message_text(value) =~= if at < text_fields().len() {
        content::flat_at(value, text_fields()[at])
    } else {
        Seq::empty()
    });
}

/// What one side says, as a message of a role and an author, unless it is white
/// space only.
pub open spec fn one_side(side: Option<Tree>, role: Seq<char>, author: Seq<char>) -> Seq<
    MessageView,
> {
    match side {
        Some(value) => if laws::all_white(chat::message_text(value)) {
            Seq::empty()
        } else {
            seq![
                spoken(
                    role,
                    Some(author),
                    chat::turn_stamp(value),
                    chat::message_text(value),
                    value,
                    Seq::empty(),
                ),
            ]
        },
        None => Seq::empty(),
    }
}

proof fn lemma_side(side: Option<Tree>, role: Seq<char>, author: Seq<char>)
    ensures
        chat::side_messages(side, role, author) == one_side(side, role, author),
{
    if let Some(value) = side {
        laws::law_blank_texts_are_white_space(chat::message_text(value));
    }
}

proof fn lemma_turns_add(a: Seq<Tree>, b: Seq<Tree>)
    ensures
        chat::turns_messages(a + b) == chat::turns_messages(a) + chat::turns_messages(b),
    decreases b.len(),
{
    if b.len() == 0 {
        assert(a + b =~= a);
        assert(chat::turns_messages(a) + chat::turns_messages(b) =~= chat::turns_messages(a));
    } else {
        lemma_turns_add(a, b.drop_last());
        assert((a + b).drop_last() =~= a + b.drop_last());
        assert((a + b).last() == b.last());
        assert(chat::turns_messages(a + b) =~= chat::turns_messages(a) + chat::turns_messages(b));
    }
}

/// Turns are taken one by one and in order: of each the request, as a message of
/// the user, and then the response, as one of the assistant by Copilot.
pub proof fn law_turns_are_taken_one_by_one(before: Seq<Tree>, turn: Tree, behind: Seq<Tree>)
    ensures
        chat::turns_messages(before + seq![turn] + behind) == chat::turns_messages(before)
            + one_side(turn.field("request"@), "user"@, "user"@) + one_side(
            turn.field("response"@),
            "assistant"@,
            "copilot"@,
        ) + chat::turns_messages(behind),
{
    lemma_turns_add(before + seq![turn], behind);
    lemma_turns_add(before, seq![turn]);
    lemma_side(turn.field("request"@), "user"@, "user"@);
    lemma_side(turn.field("response"@), "assistant"@, "copilot"@);
    assert(seq![turn].drop_last() =~= Seq::empty());
    assert(chat::turns_messages(Seq::empty()) =~= Seq::empty());
    let asked = one_side(turn.field("request"@), "user"@, "user"@);
    let answered = one_side(turn.field("response"@), "assistant"@, "copilot"@);
    assert(chat::turns_messages(seq![turn]) =~= asked + answered);
    assert(chat::turns_messages(before) + (asked + answered) =~= chat::turns_messages(before)
        + asked + answered);
}

proof fn lemma_listed_add(a: Seq<Tree>, b: Seq<Tree>)
    ensures
        chat::listed_messages(a + b) == chat::listed_messages(a) + chat::listed_messages(b),
    decreases b.len(),
{
    if b.len() == 0 {
        assert(a + b =~= a);
        assert(chat::listed_messages(a) + chat::listed_messages(b) =~= chat::listed_messages(a));
    } else {
        lemma_listed_add(a, b.drop_last());
        assert((a + b).drop_last() =~= a + b.drop_last());
        assert((a + b).last() == b.last());
        assert(chat::listed_messages(a + b) =~= chat::listed_messages(a) + chat::listed_messages(
            b,
        ));
    }
}

/// Listed messages are taken one by one and in order, each with its own role, or
/// the assistant's where it has none. The user writes the user's, and Copilot all
/// others.
pub proof fn law_messages_are_taken_one_by_one(
    before: Seq<Tree>,
    message: Tree,
    behind: Seq<Tree>,
    role: Seq<char>,
)
    requires
        message.text_at("role"@) == Some(role) || (message.text_at("role"@) is None && role
            == "assistant"@),
    ensures
        chat::listed_messages(before + seq![message] + behind) == chat::listed_messages(before)
            + one_side(
            Some(message),
            role,
            if role == "user"@ {
                "user"@
            } else {
                "copilot"@
            },
        ) + chat::listed_messages(behind),
{
    let author = if role == "user"@ {
        "user"@
    } else {
        "copilot"@
    };
    lemma_listed_add(before + seq![message], behind);
    lemma_listed_add(before, seq![message]);
    lemma_side(Some(message), role, author);
    assert(seq![message].drop_last() =~= Seq::empty());
    assert(chat::listed_messages(Seq::empty()) =~= Seq::empty());
    assert(chat::listed_messages(seq![message]) =~= one_side(Some(message), role, author));
}

/// The messages of a conversation are those of its turns; only where they say
/// nothing, those of its `messages` array, and, of a document of the CLI, those of
/// its `conversation` array where neither says anything.
pub proof fn law_turns_come_before_messages(conversation: Tree, turns: Seq<Tree>, list: Seq<Tree>)
    requires
        conversation.items_at("turns"@) == Some(turns) || (conversation.items_at("turns"@) is None
            && turns.len() == 0),
        conversation.items_at("messages"@) == Some(list) || (conversation.items_at("messages"@)
            is None && list.len() == 0),
    ensures
        chat::turns_messages(turns).len() > 0 ==> chat::conversation_messages(conversation)
            == chat::turns_messages(turns),
        chat::turns_messages(turns).len() == 0 ==> chat::conversation_messages(conversation)
            == chat::listed_messages(list),
        chat::conversation_messages(conversation).len() > 0 ==> chat::session_messages(conversation)
            == chat::conversation_messages(conversation),
        chat::conversation_messages(conversation).len() == 0 ==> match conversation.items_at(
            "conversation"@,
        ) {
            Some(more) => chat::session_messages(conversation) == chat::listed_messages(more),
            None => chat::session_messages(conversation).len() == 0,
        },
{
    assert(turns.len() == 0 ==> turns =~= Seq::empty());
    assert(list.len() == 0 ==> list =~= Seq::empty());
}

/// Whether some time is the first and another the last of those of some messages.
pub open spec fn bounds(
    messages: Seq<MessageView>,
    first: Option<i64>,
    last: Option<i64>,
) -> bool {
    &&& first is Some && last is Some
    &&& exists|i: int| 0 <= i < messages.len() && (#[trigger] messages[i]).created_at == first
    &&& exists|i: int| 0 <= i < messages.len() && (#[trigger] messages[i]).created_at == last
    &&& forall|i: int|
        0 <= i < messages.len() && (#[trigger] messages[i]).created_at is Some
            ==> first->Some_0 <= messages[i].created_at->Some_0 <= last->Some_0
}

/// Whether no message has a time.
pub open spec fn timeless(messages: Seq<MessageView>) -> bool {
    forall|i: int| 0 <= i < messages.len() ==> (#[trigger] messages[i]).created_at is None
}

/// The first and the last of the times of messages are their bounds, and there
/// are none just where no message has a time.
pub proof fn lemma_stamps(messages: Seq<MessageView>)
    ensures
        timeless(messages) ==> timeline::earliest(types::stamps_of(messages)) is None
            && timeline::latest(types::stamps_of(messages)) is None,
        !timeless(messages) ==> bounds(
            messages,
            timeline::earliest(types::stamps_of(messages)),
            timeline::latest(types::stamps_of(messages)),
        ),
{
    let stamps = types::stamps_of(messages);
    timeline::law_bounds_enclose(stamps);
    if timeless(messages) {
        if timeline::earliest(stamps) is Some {
            let i = choose|i: int| 0 <= i < stamps.len() && (#[trigger] stamps[i]) is Some;
            assert(messages[i].created_at is None);
        }
    } else {
        let k = choose|k: int|
            0 <= k < messages.len() && !((#[trigger] messages[k]).created_at is None);
        assert(stamps[k] is Some);
        let i = choose|i: int| 0 <= i < stamps.len() && stamps[i] == timeline::earliest(stamps);
        assert(messages[i].created_at == timeline::earliest(stamps));
        let j = choose|j: int| 0 <= j < stamps.len() && stamps[j] == timeline::latest(stamps);
        assert(messages[j].created_at == timeline::latest(stamps));
        assert forall|n: int|
            0 <= n < messages.len() && (
            #[trigger] messages[n]).created_at is Some implies timeline::earliest(stamps)->Some_0
            <= messages[n].created_at->Some_0 <= timeline::latest(stamps)->Some_0 by {
            assert(stamps[n] is Some);
        }
    }
}

/// Whether a conversation carries just some messages, numbered.
pub open spec fn carries(conversation: ConversationView, messages: Seq<MessageView>) -> bool {
    &&& conversation.messages.len() == messages.len()
    &&& forall|i: int|
        0 <= i < messages.len() ==> {
            let message = #[trigger] conversation.messages[i];
            &&& message.idx == i || i > i64::MAX
            &&& message.role == messages[i].role
            &&& message.author == messages[i].author
            &&& message.created_at == messages[i].created_at
            &&& message.content == messages[i].content
            &&& message.extra == messages[i].extra
            &&& message.invocations == messages[i].invocations
            &&& message.snippets == messages[i].snippets
        }
}

/// A value with messages is a conversation of Copilot with all of them. It is
/// named by its `id`, works in its `workspaceFolder`, and has its own title or
/// else what the user says first. It lasts from its first message to its last;
/// where no message has a time, from when it was made to when it was changed, of
/// which one stands for the other.
pub proof fn law_conversations_carry_what_they_are_made_of(
    conversation: Tree,
    messages: Seq<MessageView>,
    path: Seq<Seq<char>>,
)
    ensures
        chat::conversation_with(conversation, messages, path) is Some <==> messages.len() > 0,
        chat::conversation_with(conversation, messages, path) matches Some(found) ==> {
            let made = content::stamp_in(
                conversation.field_or_or("createdAt"@, "created_at"@, "timestamp"@),
            );
            let changed = content::stamp_in(conversation.field_or("updatedAt"@, "updated_at"@));
            let title = conversation.field_or("title"@, "chatTitle"@);
            &&& carries(found, messages)
            &&& found.agent_slug == "copilot"@
            &&& found.source_path == path
            &&& found.metadata == Tree::Object(map!["source"@ => Tree::Text("copilot"@)])
            &&& found.external_id == match conversation.field_or("id"@, "conversationId"@) {
                Some(Tree::Text(id)) => Some(id),
                _ => None,
            }
            &&& found.workspace == match conversation.field_or_or(
                "workspaceFolder"@,
                "workspace"@,
                "workspacePath"@,
            ) {
                Some(Tree::Text(place)) => Some(place),
                _ => None,
            }
            &&& found.title == match title {
                Some(Tree::Text(own)) => Some(own),
                _ => types::user_title(messages),
            }
            &&& !timeless(messages) ==> bounds(messages, found.started_at, found.ended_at)
            &&& timeless(messages) && made is Some ==> found.started_at == made
            &&& timeless(messages) && made is None ==> found.started_at == changed
            &&& timeless(messages) && changed is Some ==> found.ended_at == changed
            &&& timeless(messages) && changed is None ==> found.ended_at == made
        },
{
    lemma_stamps(messages);
    assert(Map::<Seq<char>, Tree>::empty().insert("source"@, Tree::Text("copilot"@)) =~= map![
        "source"@ => Tree::Text("copilot"@),
    ]);
}

proof fn lemma_singles_add(a: Seq<Tree>, b: Seq<Tree>, path: Seq<Seq<char>>)
    ensures
        chat::singles(a + b, path) == chat::singles(a, path) + chat::singles(b, path),
    decreases b.len(),
{
    if b.len() == 0 {
        assert(a + b =~= a);
        assert(chat::singles(a, path) + chat::singles(b, path) =~= chat::singles(a, path));
    } else {
        lemma_singles_add(a, b.drop_last(), path);
        assert((a + b).drop_last() =~= a + b.drop_last());
        assert((a + b).last() == b.last());
        assert(chat::singles(a + b, path) =~= chat::singles(a, path) + chat::singles(b, path));
    }
}

/// The conversations of an array, or of the `conversations` array of a document,
/// are taken one by one and in order; one without a message is passed over.
pub proof fn law_conversations_are_taken_one_by_one(
    document: Tree,
    before: Seq<Tree>,
    value: Tree,
    behind: Seq<Tree>,
    path: Seq<Seq<char>>,
)
    requires
        document == Tree::Array(before + seq![value] + behind) || (document.items() is None
            && document.field("conversations"@) == Some(
            Tree::Array(before + seq![value] + behind),
        )),
    ensures
        chat::exported(document, path) == chat::exported(Tree::Array(before), path) + (
        match chat::single_conversation(value, path) {
            Some(found) => seq![found],
            None => Seq::empty(),
        }) + chat::exported(Tree::Array(behind), path),
        chat::chat_style(document, path) == chat::exported(document, path),
        chat::single_conversation(value, path) == chat::conversation_with(
            value,
            chat::conversation_messages(value),
            path,
        ),
{
    lemma_singles_add(before + seq![value], behind, path);
    lemma_singles_add(before, seq![value], path);
    assert(seq![value].drop_last() =~= Seq::empty());
    assert(chat::singles(Seq::empty(), path) =~= Seq::empty());
    assert(chat::singles(seq![value], path) =~= match chat::single_conversation(value, path) {
        Some(found) => seq![found],
        None => Seq::empty(),
    });
}

/// An object that lists no conversations is one itself where it has an `id` or
/// `turns`, and in the CLI's storage also where it has `messages` or a
/// `conversation` array; any other document holds none.
pub proof fn law_an_object_may_be_a_conversation(document: Tree, path: Seq<Seq<char>>)
    requires
        !(document is Array),
        document.items_at("conversations"@) is None,
    ensures
        chat::exported(document, path) == if document.field("id"@) is Some || document.field(
            "turns"@,
        ) is Some {
            match chat::single_conversation(document, path) {
                Some(found) => seq![found],
                None => Seq::empty(),
            }
        } else {
            Seq::empty()
        },
        chat::chat_style(document, path) == if document.field("id"@) is Some || document.field(
            "turns"@,
        ) is Some || document.field("messages"@) is Some || document.items_at("conversation"@)
            is Some {
            match chat::conversation_with(document, chat::session_messages(document), path) {
                Some(found) => seq![found],
                None => Seq::empty(),
            }
        } else {
            Seq::empty()
        },
{
}

} // verus!
