//! What holds of every log of Miniharness.
use crate::content;
use crate::disk::DiskView;
use crate::document;
use crate::json::Tree;
use crate::miniharness;
use crate::paths;
use crate::scan::ReadError;
use crate::text;
use crate::text::laws;
use crate::timeline;
use crate::types;
use crate::types::{ConversationView, MessageView};
use vstd::prelude::*;

verus! {

/// Whether a message is the user's and not white space only.
pub open spec fn user_says(message: MessageView) -> bool {
    message.role == "user"@ && !laws::all_white(message.content)
}

/// What a text leaves as a title: itself without the white space around it, or the
/// first 120 characters of that where it is longer.
pub open spec fn short(said: Seq<char>) -> Seq<char> {
    if text::trimmed(said).len() <= 120 {
        text::trimmed(said)
    } else {
        text::trimmed(said).take(120)
    }
}

proof fn lemma_title(messages: Seq<MessageView>, at: int)
    requires
        0 <= at <= messages.len(),
        forall|j: int| 0 <= j < at ==> !user_says(#[trigger] messages[j]),
        at < messages.len() ==> user_says(messages[at]),
    ensures
        miniharness::spoken_title(messages) == if at < messages.len() {
            Some(short(messages[at].content))
        } else {
            None
        },
    decreases messages.len(),
{
    if messages.len() > 0 {
        laws::law_blank_texts_are_white_space(messages[0].content);
        if at > 0 {
            let rest = messages.skip(1);
            assert(!user_says(messages[0]));
            assert forall|j: int| 0 <= j < at - 1 implies !user_says(#[trigger] rest[j]) by {
                assert(rest[j] == messages[j + 1]);
            }
            lemma_title(rest, at - 1);
        }
    }
}

/// The title of a conversation is what the first message says that is the user's
/// and not white space only, without the white space around it, or the first 120
/// characters of that where it is longer; without such a message there is none.
pub proof fn law_the_title_is_what_the_user_says_first(
    records: Seq<Tree>,
    path: Seq<Seq<char>>,
    at: int,
)
    requires
        miniharness::records_conversation(records, path) is Some,
        0 <= at <= miniharness::records_conversation(records, path)->Some_0.messages.len(),
        forall|j: int|
            0 <= j < at ==> !user_says(
                #[trigger] miniharness::records_conversation(records, path)->Some_0.messages[j],
            ),
        at < miniharness::records_conversation(records, path)->Some_0.messages.len() ==> user_says(
            miniharness::records_conversation(records, path)->Some_0.messages[at],
        ),
    ensures
        ({
            let found = miniharness::records_conversation(records, path)->Some_0;
            if at < found.messages.len() {
                found.title == Some(short(found.messages[at].content))
            } else {
                found.title is None
            }
        }),
{
    let drafts = miniharness::records_messages(records);
    let messages = miniharness::records_conversation(records, path)->Some_0.messages;
    assert forall|j: int| 0 <= j < at implies !user_says(#[trigger] drafts[j]) by {
        assert(!user_says(messages[j]));
    }
    if at < messages.len() {
        assert(user_says(drafts[at]));
        assert(messages[at].content == drafts[at].content);
    }
    lemma_title(drafts, at);
}

/// The message of a record is its `message`; where it has none, that of its
/// `entry`; and where that has none either, the record itself, if it has a role.
pub proof fn law_where_the_message_is(record: Tree, entry: Tree)
    ensures
        record.field("message"@) is Some ==> miniharness::message_in(record) == record.field(
            "message"@,
        ),
        record.field("message"@) is None && record.field("entry"@) == Some(entry) && entry.field(
            "message"@,
        ) is Some ==> miniharness::message_in(record) == entry.field("message"@),
        record.field("message"@) is None && (record.field("entry"@) is None || (record.field(
            "entry"@,
        ) == Some(entry) && entry.field("message"@) is None)) ==> miniharness::message_in(record)
            == (if record.field("role"@) is Some {
            Some(record)
        } else {
            None
        }),
{
}

/// What one record is: a message of the user or of the assistant, at the time of
/// the record or else of the message, that says its `content` and keeps the record,
/// or else none.
pub open spec fn one_record(record: Tree) -> Seq<MessageView> {
    match miniharness::message_in(record) {
        Some(message) => match message.text_at("role"@) {
            Some(role) => if role == "user"@ || role == "assistant"@ {
                seq![
                    MessageView {
                        idx: 0,
                        role,
                        author: None,
                        created_at: if content::stamp_at(record, "timestamp"@) is Some {
                            content::stamp_at(record, "timestamp"@)
                        } else {
                            content::stamp_at(message, "timestamp"@)
                        },
                        content: content::flat_at(message, "content"@),
                        extra: record,
                        invocations: Seq::empty(),
                        snippets: Seq::empty(),
                    },
                ]
            } else {
                Seq::empty()
            },
            None => Seq::empty(),
        },
        None => Seq::empty(),
    }
}

proof fn lemma_messages_add(a: Seq<Tree>, b: Seq<Tree>)
    ensures
        miniharness::records_messages(a + b) == miniharness::records_messages(a)
            + miniharness::records_messages(b),
    decreases b.len(),
{
    if b.len() == 0 {
        assert(a + b =~= a);
        assert(miniharness::records_messages(a) + miniharness::records_messages(b)
            =~= miniharness::records_messages(a));
    } else {
        lemma_messages_add(a, b.drop_last());
        assert((a + b).drop_last() =~= a + b.drop_last());
        assert((a + b).last() == b.last());
        assert(miniharness::records_messages(a + b) =~= miniharness::records_messages(a)
            + miniharness::records_messages(b));
    }
}

/// Records are taken one by one and in order.
pub proof fn law_records_are_taken_one_by_one(before: Seq<Tree>, record: Tree, behind: Seq<Tree>)
    ensures
        miniharness::records_messages(before + seq![record] + behind)
            == miniharness::records_messages(before) + one_record(record)
            + miniharness::records_messages(behind),
{
    lemma_messages_add(before + seq![record], behind);
    lemma_messages_add(before, seq![record]);
    assert(seq![record].drop_last() =~= Seq::empty());
    assert(miniharness::records_messages(Seq::empty()) =~= Seq::empty());
    assert(miniharness::records_messages(seq![record]) =~= one_record(record));
}

/// Of several headers the last counts, wherever it stands; a record is one just
/// when its kind is `header`.
pub proof fn law_the_last_header_counts(before: Seq<Tree>, header: Tree, behind: Seq<Tree>)
    requires
        forall|j: int|
            0 <= j < behind.len() ==> (#[trigger] behind[j]).text_at("kind"@) != Some("header"@),
    ensures
        header.text_at("kind"@) == Some("header"@) ==> miniharness::last_header(
            before + seq![header] + behind,
        ) == Some(header),
        miniharness::last_header(behind) is None,
    decreases behind.len(),
{
    let all = before + seq![header] + behind;
    if behind.len() == 0 {
        assert(all.last() == header);
    } else {
        let shorter = behind.drop_last();
        assert forall|j: int| 0 <= j < shorter.len() implies (#[trigger] shorter[j]).text_at(
            "kind"@,
        ) != Some("header"@) by {
            assert(shorter[j] == behind[j]);
        }
        law_the_last_header_counts(before, header, shorter);
        assert(behind[behind.len() - 1] == behind.last());
        assert(all.last() == behind.last());
        assert(all.drop_last() =~= before + seq![header] + shorter);
    }
}

/// The field of a header that may be missing.
pub open spec fn header_field(header: Option<Tree>, key: Seq<char>) -> Option<Tree> {
    match header {
        Some(record) => record.field(key),
        None => None,
    }
}

/// Whether some times are the bounds of some messages: the first and the last that
/// any has, or none where none has any.
pub open spec fn bounds(
    messages: Seq<MessageView>,
    first: Option<i64>,
    last: Option<i64>,
) -> bool {
    &&& first is Some <==> last is Some
    &&& first is Some ==> exists|i: int|
        0 <= i < messages.len() && (#[trigger] messages[i]).created_at == first
    &&& last is Some ==> exists|i: int|
        0 <= i < messages.len() && (#[trigger] messages[i]).created_at == last
    &&& forall|i: int|
        0 <= i < messages.len() && (#[trigger] messages[i]).created_at is Some ==> first is Some
            && last is Some && first->Some_0 <= messages[i].created_at->Some_0 <= last->Some_0
}

proof fn lemma_bounds(messages: Seq<MessageView>)
    ensures
        bounds(
            messages,
            timeline::earliest(types::stamps_of(messages)),
            timeline::latest(types::stamps_of(messages)),
        ),
{
    let stamps = types::stamps_of(messages);
    let first = timeline::earliest(stamps);
    let last = timeline::latest(stamps);
    timeline::law_bounds_enclose(stamps);
    if first is Some {
        let i = choose|i: int| 0 <= i < stamps.len() && stamps[i] == first;
        assert(messages[i].created_at == first);
        let j = choose|j: int| 0 <= j < stamps.len() && stamps[j] == last;
        assert(messages[j].created_at == last);
    }
    assert forall|i: int|
        0 <= i < messages.len() && (
        #[trigger] messages[i]).created_at is Some implies first is Some && last is Some
        && first->Some_0 <= messages[i].created_at->Some_0 <= last->Some_0 by {
        assert(stamps[i] is Some);
    }
}

/// Whether a conversation starts when its header says, or else with its first
/// message, and ends with its last message, or else when it starts.
pub open spec fn lasts(
    messages: Seq<MessageView>,
    created: Option<i64>,
    started: Option<i64>,
    ended: Option<i64>,
) -> bool {
    exists|first: Option<i64>, last: Option<i64>| #[trigger]
        bounds(messages, first, last) && started == (if created is Some {
            created
        } else {
            first
        }) && ended == (if last is Some {
            last
        } else {
            created
        })
}

/// Records in which the assistant speaks are one conversation, with all their
/// messages numbered by their places, and found where they were read. It has the
/// name in its header, unless that is white space only, or else the one in the name
/// of its file, and works where its header says.
pub proof fn law_records_make_a_conversation(records: Seq<Tree>, path: Seq<Seq<char>>)
    ensures
        miniharness::records_conversation(records, path) is Some <==> exists|i: int|
            0 <= i < miniharness::records_messages(records).len() && (
            #[trigger] miniharness::records_messages(records)[i]).role == "assistant"@,
        miniharness::records_conversation(records, path) matches Some(found) ==> {
            let messages = miniharness::records_messages(records);
            let header = miniharness::last_header(records);
            &&& found.agent_slug == "miniharness"@
            &&& found.source_path == path
            &&& found.metadata == Tree::Object(map![])
            &&& found.external_id == match header_field(header, "id"@) {
                Some(Tree::Text(id)) if !laws::all_white(id) => Some(text::trimmed(id)),
                _ => miniharness::file_id(path),
            }
            &&& found.workspace == match header_field(header, "cwd"@) {
                Some(Tree::Text(place)) => Some(place),
                _ => None,
            }
            &&& lasts(
                messages,
                match header {
                    Some(record) => content::stamp_at(record, "createdAt"@),
                    None => None,
                },
                found.started_at,
                found.ended_at,
            )
            &&& found.messages.len() == messages.len()
            &&& forall|i: int|
                0 <= i < messages.len() ==> {
                    let message = #[trigger] found.messages[i];
                    &&& message.idx == i || i > i64::MAX
                    &&& message.role == messages[i].role
                    &&& message.author == messages[i].author
                    &&& message.created_at == messages[i].created_at
                    &&& message.content == messages[i].content
                    &&& message.extra == messages[i].extra
                    &&& message.invocations == messages[i].invocations
                    &&& message.snippets == messages[i].snippets
                }
        },
{
    let messages = miniharness::records_messages(records);
    lemma_bounds(messages);
    if let Some(Tree::Text(id)) = header_field(miniharness::last_header(records), "id"@) {
        laws::law_blank_texts_are_white_space(id);
    }
    if miniharness::records_conversation(records, path) is Some {
        let found = miniharness::records_conversation(records, path)->Some_0;
        assert(bounds(
            messages,
            timeline::earliest(types::stamps_of(messages)),
            timeline::latest(types::stamps_of(messages)),
        ));
        assert(found.metadata == Tree::Object(map![]));
    }
}

/// The session that a file name tells is what follows the first underscore of its
/// stem, or the whole stem where it has none.
pub proof fn law_the_first_underscore_parts_a_stem(
    path: Seq<Seq<char>>,
    head: Seq<char>,
    id: Seq<char>,
)
    requires
        !head.contains('_'),
    ensures
        paths::stem_of(path) == Some(head + seq!['_'] + id) ==> miniharness::file_id(path) == Some(
            id,
        ),
        paths::stem_of(path) == Some(head) ==> miniharness::file_id(path) == Some(head),
        paths::stem_of(path) is None ==> miniharness::file_id(path) is None,
{
    laws::law_the_rest_follows_the_first(head, '_', id);
}

/// The records of a log are the documents of those of its lines that are not white
/// space only. A file that is no text is told, and one that is has the conversation
/// of its records, if they are one.
pub proof fn law_a_log_has_a_record_a_line(
    raw: Seq<char>,
    path: Seq<Seq<char>>,
    disk: DiskView,
)
    ensures
        miniharness::log_records(raw) == document::read_ones(
            text::lines_of(raw).filter(|line: Seq<char>| !laws::all_white(line)).map_values(
                |line: Seq<char>| document::json_document(line),
            ),
        ),
        disk.text(path) == Some(raw) ==> miniharness::file_outcome(path, disk) == Ok::<
            Option<ConversationView>,
            ReadError,
        >(miniharness::records_conversation(miniharness::log_records(raw), path))
            && miniharness::file_conversation(path, disk) == miniharness::records_conversation(
            miniharness::log_records(raw),
            path,
        ),
        disk.text(path) is None ==> miniharness::file_outcome(path, disk) == Err::<
            Option<ConversationView>,
            ReadError,
        >(ReadError::Unreadable) && miniharness::file_conversation(path, disk) is None,
{
    laws::law_blank_lines_are_left_out(text::lines_of(raw));
    let kept = text::lines_of(raw).filter(|line: Seq<char>| !laws::all_white(line));
    assert(document::line_documents(kept) =~= kept.map_values(
        |line: Seq<char>| document::json_document(line),
    ));
}

} // verus!
