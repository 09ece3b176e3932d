//! What holds of every log of Muse.
use crate::disk::DiskView;
use crate::document;
use crate::json::Tree;
use crate::muse;
use crate::paths;
use crate::scan::ReadError;
use crate::text;
use crate::text::laws;
use crate::timeline;
use crate::types;
use crate::types::{ConversationView, InvocationView, MessageView};
use vstd::prelude::*;
use vstd::utf8::*;

verus! {

proof fn lemma_results_add(a: Seq<Tree>, b: Seq<Tree>)
    ensures
        muse::results_of(a + b) == muse::results_of(a) + muse::results_of(b),
    decreases b.len(),
{
    if b.len() == 0 {
        assert(a + b =~= a);
        assert(muse::results_of(a) + muse::results_of(b) =~= muse::results_of(a));
    } else {
        lemma_results_add(a, b.drop_last());
        assert((a + b).drop_last() =~= a + b.drop_last());
        assert((a + b).last() == b.last());
        assert(muse::results_of(a + b) =~= muse::results_of(a) + muse::results_of(b));
    }
}

proof fn lemma_all_results(results: Seq<Tree>, texts: Seq<Seq<char>>)
    requires
        results.len() == texts.len(),
        forall|i: int|
            0 <= i < results.len() ==> (#[trigger] results[i]).text_at("text"@) == Some(texts[i]),
    ensures
        muse::results_of(results) == texts,
    decreases results.len(),
{
    if results.len() > 0 {
        let a = results.drop_last();
        let b = texts.drop_last();
        assert forall|i: int| 0 <= i < a.len() implies (#[trigger] a[i]).text_at("text"@) == Some(
            b[i],
        ) by {
            assert(a[i] == results[i]);
        }
        lemma_all_results(a, b);
        assert(results[results.len() - 1] == results.last());
        assert(muse::results_of(results) =~= texts);
    }
}

/// Results that each have a text say those texts, each of them and in order, with
/// a line feed between each two.
pub proof fn law_results_say_their_texts(event: Tree, results: Seq<Tree>, texts: Seq<Seq<char>>)
    requires
        event.items_at("results"@) == Some(results),
        results.len() == texts.len(),
        forall|i: int|
            0 <= i < results.len() ==> (#[trigger] results[i]).text_at("text"@) == Some(texts[i]),
    ensures
        muse::event_results(event) == text::joined(texts),
        texts.len() == 0 ==> muse::event_results(event).len() == 0,
        texts.len() == 1 ==> muse::event_results(event) == texts[0],
        texts.len() > 1 ==> muse::event_results(event) == text::joined(texts.drop_last()) + seq![
            '\n',
        ] + texts.last(),
{
    lemma_all_results(results, texts);
    laws::law_joining_puts_a_line_feed_between(texts, texts);
    if texts.len() > 1 {
        let last = seq![texts.last()];
        laws::law_joining_puts_a_line_feed_between(texts.drop_last(), last);
        laws::law_joining_puts_a_line_feed_between(last, last);
        assert(texts.drop_last() + last =~= texts);
    }
}

/// Results are taken one by one and in order; one without a text is passed over,
/// and an event without results says nothing.
pub proof fn law_results_are_taken_one_by_one(
    event: Tree,
    before: Seq<Tree>,
    result: Tree,
    behind: Seq<Tree>,
)
    ensures
        muse::results_of(before + seq![result] + behind) == muse::results_of(before) + (
        match result.text_at("text"@) {
            Some(said) => seq![said],
            None => Seq::empty(),
        }) + muse::results_of(behind),
        event.items_at("results"@) matches Some(results) ==> muse::event_results(event)
            == text::joined(muse::results_of(results)),
        event.items_at("results"@) is None ==> muse::event_results(event).len() == 0,
{
    lemma_results_add(before + seq![result], behind);
    lemma_results_add(before, seq![result]);
    assert(seq![result].drop_last() =~= Seq::empty());
    assert(muse::results_of(Seq::empty()) =~= Seq::empty());
    assert(muse::results_of(seq![result]) =~= match result.text_at("text"@) {
        Some(said) => seq![said],
        None => Seq::empty(),
    });
}

proof fn lemma_calls_add(a: Seq<Tree>, b: Seq<Tree>)
    ensures
        muse::calls_of(a + b) == muse::calls_of(a) + muse::calls_of(b),
    decreases b.len(),
{
    if b.len() == 0 {
        assert(a + b =~= a);
        assert(muse::calls_of(a) + muse::calls_of(b) =~= muse::calls_of(a));
    } else {
        lemma_calls_add(a, b.drop_last());
        assert((a + b).drop_last() =~= a + b.drop_last());
        assert((a + b).last() == b.last());
        assert(muse::calls_of(a + b) =~= muse::calls_of(a) + muse::calls_of(b));
    }
}

/// The call that a value is: of the tool that it names, without the white space
/// around the name, unless nothing is left. Arguments written as text that is a
/// JSON document count as the document.
pub open spec fn one_call(call: Tree) -> Seq<InvocationView> {
    match call.text_at("name"@) {
        Some(name) if !laws::all_white(name) => seq![
            InvocationView {
                kind: "tool"@,
                name: text::trimmed(name),
                raw_name: None,
                call_id: call.text_at("call_id"@),
                arguments: match call.field("args"@) {
                    Some(Tree::Text(said)) => match document::json_document(said) {
                        Some(value) => Some(value),
                        None => Some(Tree::Text(said)),
                    },
                    other => other,
                },
            },
        ],
        _ => Seq::empty(),
    }
}

/// Calls are taken one by one and in order; an event without any calls nothing.
pub proof fn law_calls_are_taken_one_by_one(
    event: Tree,
    before: Seq<Tree>,
    call: Tree,
    behind: Seq<Tree>,
)
    ensures
        muse::calls_of(before + seq![call] + behind) == muse::calls_of(before) + one_call(call)
            + muse::calls_of(behind),
        event.items_at("tool_calls"@) matches Some(calls) ==> muse::event_calls(event)
            == muse::calls_of(calls),
        event.items_at("tool_calls"@) is None ==> muse::event_calls(event).len() == 0,
{
    lemma_calls_add(before + seq![call], behind);
    lemma_calls_add(before, seq![call]);
    assert(seq![call].drop_last() =~= Seq::empty());
    assert(muse::calls_of(Seq::empty()) =~= Seq::empty());
    if let Some(name) = call.text_at("name"@) {
        laws::law_blank_texts_are_white_space(name);
    }
    assert(muse::calls_of(seq![call]) =~= one_call(call));
}

/// The event of a run is that of the payload of a record of a session; no other
/// record has one.
pub proof fn law_events_are_those_of_runs(record: Tree, payload: Tree)
    ensures
        record.text_at("payload_type"@) == Some("runtime.session"@) && record.field("payload"@)
            == Some(payload) && payload.text_at("kind"@) == Some("run"@) ==> muse::event_of(record)
            == payload.field("event"@),
        record.text_at("payload_type"@) != Some("runtime.session"@) ==> muse::event_of(record)
            is None,
        record.field("payload"@) is None ==> muse::event_of(record) is None,
        record.field("payload"@) == Some(payload) && payload.text_at("kind"@) != Some("run"@)
            ==> muse::event_of(record) is None,
{
}

/// The time of a record is its `recorded_at`, from microseconds to whole
/// milliseconds; what is left over is less than one and has the sign of the time.
pub proof fn law_times_are_milliseconds(record: Tree, micros: i64)
    requires
        record.field("recorded_at"@) == Some(Tree::NegInt(micros)) || (micros >= 0 && record.field(
            "recorded_at"@,
        ) == Some(Tree::UInt(micros as u64))),
    ensures
        muse::recorded_at(record) matches Some(at) && (if micros >= 0 {
            at * 1000 <= micros < at * 1000 + 1000
        } else {
            at * 1000 - 1000 < micros <= at * 1000
        }),
{
    let whole = muse::millis(micros as int);
    if micros < 0 {
        let size = -(micros as int);
        assert(size == 1000 * (size / 1000) + size % 1000);
    }
    assert(i64::MIN <= whole <= i64::MAX);
}

/// A record without an integer time has none, and one without an integer number
/// counts as number zero.
pub proof fn law_only_integers_count(record: Tree, number: i64)
    ensures
        !(record.field("recorded_at"@) matches Some(Tree::UInt(_))) && !(record.field(
            "recorded_at"@,
        ) matches Some(Tree::NegInt(_))) ==> muse::recorded_at(record) is None,
        record.field("sequence"@) == Some(Tree::NegInt(number)) || (number >= 0 && record.field(
            "sequence"@,
        ) == Some(Tree::UInt(number as u64))) ==> muse::sequence_of(record) == number,
        !(record.field("sequence"@) matches Some(Tree::UInt(_))) && !(record.field("sequence"@)
            matches Some(Tree::NegInt(_))) ==> muse::sequence_of(record) == 0,
{
}

/// A message of a record, before it is numbered.
pub open spec fn message_of(
    role: Seq<char>,
    said: Seq<char>,
    record: Tree,
    calls: Seq<InvocationView>,
) -> MessageView {
    MessageView {
        idx: 0,
        role,
        author: None,
        created_at: muse::recorded_at(record),
        content: said,
        extra: record,
        invocations: calls,
        snippets: Seq::empty(),
    }
}

/// What one record is: a prompt of the user, a text or some calls of the
/// assistant, or some results of tools, or else no message. A text may be empty;
/// calls and results without any are none.
pub open spec fn one_record(record: Tree) -> Seq<MessageView> {
    match muse::event_of(record) {
        Some(event) => match event.text_at("kind"@) {
            Some(kind) => if kind == "started"@ {
                match event.text_at("prompt"@) {
                    Some(prompt) => seq![message_of("user"@, prompt, record, Seq::empty())],
                    None => Seq::empty(),
                }
            } else if kind == "assistant_message_committed"@ {
                seq![
                    message_of(
                        "assistant"@,
                        match event.text_at("text"@) {
                            Some(said) => said,
                            None => Seq::empty(),
                        },
                        record,
                        Seq::empty(),
                    ),
                ]
            } else if kind == "assistant_tool_calls_committed"@ && muse::event_calls(event).len()
                > 0 {
                seq![
                    message_of("assistant"@, Seq::empty(), record, muse::event_calls(event)),
                ]
            } else if kind == "tool_result_batch_committed"@ && muse::event_results(event).len()
                > 0 {
                seq![message_of("tool"@, muse::event_results(event), record, Seq::empty())]
            } else {
                Seq::empty()
            },
            None => Seq::empty(),
        },
        None => Seq::empty(),
    }
}

proof fn lemma_kinds()
    ensures
        "started"@ != "assistant_message_committed"@,
        "started"@ != "assistant_tool_calls_committed"@,
        "started"@ != "tool_result_batch_committed"@,
        "assistant_message_committed"@ != "assistant_tool_calls_committed"@,
        "assistant_message_committed"@ != "tool_result_batch_committed"@,
        "assistant_tool_calls_committed"@ != "tool_result_batch_committed"@,
{
    reveal_strlit("started");
    reveal_strlit("assistant_message_committed");
    reveal_strlit("assistant_tool_calls_committed");
    reveal_strlit("tool_result_batch_committed");
    assert("started"@.len() == 7);
    assert("assistant_message_committed"@.len() == 27);
    assert("assistant_tool_calls_committed"@.len() == 30);
    assert("tool_result_batch_committed"@.len() == 27);
    assert("assistant_message_committed"@[0] != "tool_result_batch_committed"@[0]);
}

proof fn lemma_messages_add(a: Seq<Tree>, b: Seq<Tree>)
    ensures
        muse::records_messages(a + b) == muse::records_messages(a) + muse::records_messages(b),
    decreases b.len(),
{
    if b.len() == 0 {
        assert(a + b =~= a);
        assert(muse::records_messages(a) + muse::records_messages(b) =~= muse::records_messages(a));
    } else {
        lemma_messages_add(a, b.drop_last());
        assert((a + b).drop_last() =~= a + b.drop_last());
        assert((a + b).last() == b.last());
        assert(muse::records_messages(a + b) =~= muse::records_messages(a)
            + muse::records_messages(b));
    }
}

/// Records are taken one by one and in order.
pub proof fn law_records_are_taken_one_by_one(before: Seq<Tree>, record: Tree, behind: Seq<Tree>)
    ensures
        muse::records_messages(before + seq![record] + behind) == muse::records_messages(before)
            + one_record(record) + muse::records_messages(behind),
{
    lemma_kinds();
    lemma_messages_add(before + seq![record], behind);
    lemma_messages_add(before, seq![record]);
    assert(seq![record].drop_last() =~= Seq::empty());
    assert(muse::records_messages(Seq::empty()) =~= Seq::empty());
    assert(muse::records_messages(seq![record]) =~= one_record(record));
}

/// A batch of results that each have a text is one message of a tool, which says
/// those texts, each of them and in order, with a line feed between each two,
/// unless there is nothing to say.
pub proof fn law_a_batch_of_results_is_one_message(
    record: Tree,
    event: Tree,
    results: Seq<Tree>,
    texts: Seq<Seq<char>>,
)
    requires
        muse::event_of(record) == Some(event),
        event.text_at("kind"@) == Some("tool_result_batch_committed"@),
        event.items_at("results"@) == Some(results),
        results.len() == texts.len(),
        forall|i: int|
            0 <= i < results.len() ==> (#[trigger] results[i]).text_at("text"@) == Some(texts[i]),
    ensures
        text::joined(texts).len() > 0 ==> muse::records_messages(seq![record]) == seq![
            message_of("tool"@, text::joined(texts), record, Seq::empty()),
        ],
        text::joined(texts).len() == 0 ==> muse::records_messages(seq![record]).len() == 0,
{
    lemma_kinds();
    law_results_say_their_texts(event, results, texts);
    law_records_are_taken_one_by_one(Seq::empty(), record, Seq::empty());
    assert(Seq::<Tree>::empty() + seq![record] + Seq::empty() =~= seq![record]);
    assert(muse::records_messages(Seq::empty()) =~= Seq::empty());
    assert(muse::records_messages(seq![record]) =~= one_record(record));
}

/// The stream that a record names.
pub open spec fn own_stream(record: Tree) -> Option<Seq<char>> {
    match record.field("stream"@) {
        Some(stream) => stream.text_at("id"@),
        None => None,
    }
}

/// The stream of a log is that of its first record to name one.
pub proof fn law_the_first_stream_counts(records: Seq<Tree>, at: int)
    requires
        0 <= at <= records.len(),
        forall|j: int| 0 <= j < at ==> own_stream(#[trigger] records[j]) is None,
        at < records.len() ==> own_stream(records[at]) is Some,
    ensures
        muse::stream_id(records) == if at < records.len() {
            own_stream(records[at])
        } else {
            None
        },
    decreases records.len(),
{
    if records.len() > 0 && at > 0 {
        let rest = records.skip(1);
        assert(own_stream(records[0]) is None);
        assert forall|j: int| 0 <= j < at - 1 implies own_stream(#[trigger] rest[j]) is None by {
            assert(rest[j] == records[j + 1]);
        }
        law_the_first_stream_counts(rest, at - 1);
    }
}

/// Whether a record is one of metadata.
pub open spec fn is_metadata(record: Tree) -> bool {
    record.text_at("payload_type"@) == Some("runtime.session.metadata"@)
}

/// The workspace of a log is that which its first record of metadata names, if it
/// names one; a later one does not count.
pub proof fn law_the_first_metadata_counts(records: Seq<Tree>, at: int)
    requires
        0 <= at <= records.len(),
        forall|j: int| 0 <= j < at ==> !is_metadata(#[trigger] records[j]),
        at < records.len() ==> is_metadata(records[at]),
    ensures
        muse::workspace_of(records) == if at < records.len() {
            match records[at].field("payload"@) {
                Some(payload) => match payload.field("record"@) {
                    Some(inner) => inner.text_at("workspace_root"@),
                    None => None,
                },
                None => None,
            }
        } else {
            None
        },
    decreases records.len(),
{
    if records.len() > 0 && at > 0 {
        let rest = records.skip(1);
        assert(!is_metadata(records[0]));
        assert forall|j: int| 0 <= j < at - 1 implies !is_metadata(#[trigger] rest[j]) by {
            assert(rest[j] == records[j + 1]);
        }
        law_the_first_metadata_counts(rest, at - 1);
    }
}

/// The title is what the first message of the user says, without the white space
/// around it, or the first 120 characters of that where it is longer; without such a
/// message there is none.
pub proof fn law_the_title_is_the_first_prompt(messages: Seq<MessageView>, at: int)
    requires
        0 <= at <= messages.len(),
        forall|j: int| 0 <= j < at ==> (#[trigger] messages[j]).role != "user"@,
        at < messages.len() ==> messages[at].role == "user"@,
    ensures
        muse::prompt_title(messages) == if at < messages.len() {
            let said = text::trimmed(messages[at].content);
            Some(
                if said.len() <= 120 {
                    said
                } else {
                    said.take(120)
                },
            )
        } else {
            None
        },
{
    types::law_the_first_message_of_a_role(messages, "user"@, at);
}

/// Whether a conversation lasts from the first time of some records, messages or
/// not, to the last, and has neither where no record has a time.
pub open spec fn lasts(records: Seq<Tree>, first: Option<i64>, last: Option<i64>) -> bool {
    &&& first is Some <==> last is Some
    &&& first is Some ==> exists|i: int|
        0 <= i < records.len() && muse::recorded_at(#[trigger] records[i]) == first
    &&& last is Some ==> exists|i: int|
        0 <= i < records.len() && muse::recorded_at(#[trigger] records[i]) == last
    &&& forall|i: int|
        0 <= i < records.len() && muse::recorded_at(#[trigger] records[i]) is Some ==> first is Some
            && last is Some && first->Some_0 <= muse::recorded_at(records[i])->Some_0
            <= last->Some_0
}

proof fn lemma_lasts(records: Seq<Tree>)
    ensures
        lasts(
            records,
            timeline::earliest(muse::records_stamps(records)),
            timeline::latest(muse::records_stamps(records)),
        ),
{
    let stamps = muse::records_stamps(records);
    let first = timeline::earliest(stamps);
    let last = timeline::latest(stamps);
    timeline::law_bounds_enclose(stamps);
    if first is Some {
        let i = choose|i: int| 0 <= i < stamps.len() && stamps[i] == first;
        assert(muse::recorded_at(records[i]) == first);
        let j = choose|j: int| 0 <= j < stamps.len() && stamps[j] == last;
        assert(muse::recorded_at(records[j]) == last);
    }
    assert forall|i: int|
        0 <= i < records.len() && muse::recorded_at(
            #[trigger] records[i],
        ) is Some implies first is Some && last is Some && first->Some_0 <= muse::recorded_at(
        records[i],
    )->Some_0 <= last->Some_0 by {
        assert(stamps[i] is Some);
    }
}

/// Records of which one is a message are one conversation of Muse, with all the
/// messages numbered by their places, and found where they were read. Its stream,
/// its workspace, its title and its bounds are those of the records.
pub proof fn law_records_make_a_conversation(records: Seq<Tree>, path: Seq<Seq<char>>)
    ensures
        muse::sequence_conversation(records, path) is Some <==> muse::records_messages(
            records,
        ).len() > 0,
        muse::sequence_conversation(records, path) matches Some(found) ==> {
            let messages = muse::records_messages(records);
            &&& found.agent_slug == "muse"@
            &&& found.source_path == path
            &&& found.external_id == muse::stream_id(records)
            &&& found.workspace == muse::workspace_of(records)
            &&& found.title == muse::prompt_title(messages)
            &&& lasts(records, found.started_at, found.ended_at)
            &&& found.messages.len() == messages.len()
            &&& forall|i: int|
                0 <= i < messages.len() ==> {
                    let message = #[trigger] found.messages[i];
                    &&& message.idx == i || i > i64::MAX
                    &&& message.role == messages[i].role
                    &&& message.author == messages[i].author
                    &&& message.created_at == messages[i].created_at
                    &&& message.content == messages[i].content
                    &&& message.extra == messages[i].extra
                    &&& message.invocations == messages[i].invocations
                    &&& message.snippets == messages[i].snippets
                }
        },
{
    lemma_lasts(records);
}

/// The log of a nested agent stands in a directory with its name, below one that
/// is named `subagent` in the directory of its session. Its conversation tells the
/// name, and its session has its log in that directory. No other log is one of a
/// nested agent.
pub proof fn law_nested_agents_stand_below_their_session(
    session: Seq<Seq<char>>,
    above: Seq<char>,
    id: Seq<char>,
    name: Seq<char>,
)
    requires
        session.len() > 0,
        paths::laws::is_name(above),
        paths::laws::is_name(id),
        paths::laws::is_name(name),
        above != ".."@,
        id != ".."@,
        name != ".."@,
    ensures
        ({
            let path = session.push(above).push(id).push(name);
            let coverage = Tree::Text(
                "model completion events are retained only in raw source; per-message attribution is unsupported"@,
            );
            &&& above == "subagent"@ ==> muse::nested(path) && muse::parent_log(path) == Some(
                session.push("session.jsonl"@),
            ) && muse::nesting(path) == Tree::Object(
                map![
                    "is_subagent"@ => Tree::Bool(true),
                    "subagent_id"@ => Tree::Text(id),
                    "token_coverage"@ => coverage,
                ],
            )
            &&& above != "subagent"@ ==> !muse::nested(path) && muse::parent_log(path) is None
                && muse::nesting(path) == Tree::Object(
                map![
                    "is_subagent"@ => Tree::Bool(false),
                    "subagent_id"@ => Tree::Null,
                    "token_coverage"@ => coverage,
                ],
            )
        }),
{
    let path = session.push(above).push(id).push(name);
    reveal_strlit("session.jsonl");
    reveal_strlit(".");
    assert("session.jsonl"@.len() != "."@.len());
    assert(!"session.jsonl"@.contains('/'));
    paths::laws::law_a_step_down_is_undone(session.push(above).push(id), name);
    paths::laws::law_a_step_down_is_undone(session.push(above), id);
    paths::laws::law_a_step_down_is_undone(session, above);
    paths::laws::law_slashes_lead_down(session, "session.jsonl"@, Seq::empty());
    lemma_nesting(path);
}

proof fn lemma_nesting(path: Seq<Seq<char>>)
    ensures
        muse::nesting(path) == Tree::Object(
            map![
                "is_subagent"@ => Tree::Bool(muse::nested(path)),
                "subagent_id"@ => if muse::nested(path) {
                    match paths::name_in(paths::parent_of(path)) {
                        Some(name) => Tree::Text(name),
                        None => Tree::Null,
                    }
                } else {
                    Tree::Null
                },
                "token_coverage"@ => Tree::Text(
                    "model completion events are retained only in raw source; per-message attribution is unsupported"@,
                ),
            ],
        ),
{
    let id = if muse::nested(path) {
        match paths::name_in(paths::parent_of(path)) {
            Some(name) => Tree::Text(name),
            None => Tree::Null,
        }
    } else {
        Tree::Null
    };
    let coverage = Tree::Text(
        "model completion events are retained only in raw source; per-message attribution is unsupported"@,
    );
    let inside = Tree::Bool(muse::nested(path));
    assert(Map::<Seq<char>, Tree>::empty().insert("is_subagent"@, inside).insert(
        "subagent_id"@,
        id,
    ).insert("token_coverage"@, coverage) =~= map![
        "is_subagent"@ => inside,
        "subagent_id"@ => id,
        "token_coverage"@ => coverage,
    ]);
}

/// A line feed ends a line of bytes: what stands before it is one line, without a
/// carriage return at its end, and the lines behind it follow. Bytes without one are
/// one line as they stand, and no bytes are none.
pub proof fn law_byte_lines_end_with_line_feeds(line: Seq<u8>, rest: Seq<u8>)
    requires
        !line.contains(10u8),
    ensures
        muse::byte_lines(line + seq![10u8] + rest) == seq![
            if line.len() > 0 && line.last() == 13u8 {
                line.drop_last()
            } else {
                line
            },
        ] + muse::byte_lines(rest),
        line.len() > 0 ==> muse::byte_lines(line) == seq![line],
        muse::byte_lines(Seq::empty()) == Seq::<Seq<u8>>::empty(),
{
    let whole = line + seq![10u8] + rest;
    assert forall|j: int| 0 <= j < line.len() implies line[j] != 10u8 by {
        assert(line.contains(line[j]));
    }
    text::lemma_first_index(whole, 10u8, line.len() as int);
    text::lemma_first_index(line, 10u8, line.len() as int);
    assert(whole.take(line.len() as int) =~= line);
    assert(whole.skip(line.len() as int + 1) =~= rest);
}

/// The lines of a log are read as text up to the first that is none, which ends
/// the log.
pub proof fn law_a_line_that_is_no_text_ends_the_log(lines: Seq<Seq<u8>>, at: int)
    requires
        0 <= at <= lines.len(),
        forall|j: int| 0 <= j < at ==> valid_utf8(#[trigger] lines[j]),
        at < lines.len() ==> !valid_utf8(lines[at]),
    ensures
        muse::readable(lines) == lines.take(at).map_values(|line: Seq<u8>| decode_utf8(line)),
    decreases lines.len(),
{
    let decode = |line: Seq<u8>| decode_utf8(line);
    if at == 0 {
        assert(lines.take(at).map_values(decode) =~= Seq::empty());
    } else {
        let rest = lines.skip(1);
        assert(valid_utf8(lines[0]));
        assert forall|j: int| 0 <= j < at - 1 implies valid_utf8(#[trigger] rest[j]) by {
            assert(rest[j] == lines[j + 1]);
        }
        law_a_line_that_is_no_text_ends_the_log(rest, at - 1);
        assert(lines.take(at).map_values(decode) =~= seq![decode_utf8(lines[0])] + rest.take(
            at - 1,
        ).map_values(decode));
    }
}

/// The records of a log are the documents of those of its lines that are not white
/// space only, taken in the order of their numbers; the workspace that it names is
/// told by the order of its lines.
pub proof fn law_a_log_has_a_record_a_line(bytes: Seq<u8>, path: Seq<Seq<char>>)
    ensures
        muse::log_records(bytes) == document::read_ones(
            muse::readable(muse::byte_lines(bytes)).filter(
                |line: Seq<char>| !laws::all_white(line),
            ).map_values(|line: Seq<char>| document::json_document(line)),
        ),
        muse::log_conversation(bytes, path) == muse::sequence_conversation(
            muse::in_sequence(muse::log_records(bytes)),
            path,
        ),
        muse::log_workspace(bytes) == muse::workspace_of(
            document::read_ones(
                muse::readable(muse::byte_lines(bytes)).map_values(
                    |line: Seq<char>| document::json_document(line),
                ),
            ),
        ),
{
    let all = muse::readable(muse::byte_lines(bytes));
    laws::law_blank_lines_are_left_out(all);
    let kept = all.filter(|line: Seq<char>| !laws::all_white(line));
    assert(document::line_documents(kept) =~= kept.map_values(
        |line: Seq<char>| document::json_document(line),
    ));
    assert(document::line_documents(all) =~= all.map_values(
        |line: Seq<char>| document::json_document(line),
    ));
}

/// A file that cannot be read is told. One that can is the conversation of its
/// log, if it has one; where that names no workspace and the log is that of a nested
/// agent, it works in the workspace of its session.
pub proof fn law_files_are_read_as_logs(path: Seq<Seq<char>>, disk: DiskView, bytes: Seq<u8>)
    ensures
        disk.bytes(path) is None ==> muse::file_outcome(path, disk) == Err::<
            Option<ConversationView>,
            ReadError,
        >(ReadError::Unreadable) && muse::file_conversation(path, disk) is None,
        disk.bytes(path) == Some(bytes) && muse::log_conversation(bytes, path) is None
            ==> muse::file_outcome(path, disk) == Ok::<Option<ConversationView>, ReadError>(None)
            && muse::file_conversation(path, disk) is None,
        disk.bytes(path) == Some(bytes) && muse::log_conversation(bytes, path) is Some ==> {
            let own = muse::log_conversation(bytes, path)->Some_0;
            let found = ConversationView {
                workspace: match own.workspace {
                    Some(place) => Some(place),
                    None => match muse::parent_log(path) {
                        Some(parent) => match disk.bytes(parent) {
                            Some(log) => muse::log_workspace(log),
                            None => None,
                        },
                        None => None,
                    },
                },
                ..own
            };
            &&& muse::file_outcome(path, disk) == Ok::<Option<ConversationView>, ReadError>(
                Some(found),
            )
            &&& muse::file_conversation(path, disk) == Some(found)
        },
{
}

} // verus!
