//! Connector for Muse Code session event logs.
//!
//! Muse Code stores append-only JSONL logs at
//! `~/.local/share/muse/sessions/YYYY/MM/DD/<session-id>/session.jsonl`. Nested
//! agents use `subagent/<subagent-id>/session.jsonl` below the same session
//! directory.
//!
//! Only the four conversation-bearing `runtime.session` run events are
//! normalized. Runtime diagnostics and model telemetry are not messages. The
//! order of the events is that of their `sequence` numbers.
use crate::content;
use crate::disk::{Disk, DiskView};
use crate::document;
use crate::json;
use crate::json::{Json, Member, Tree};
use crate::order;
use crate::paths;
use crate::paths::FilePath;
use crate::scan;
use crate::scan::{
    ContextView, DetectionResult, DiscoveredSourceFile, DiscoveredSourceRole, ReadError, RootView,
    ScanContext, ScanRoot, SourceView, UserDirs, UserView,
};
use crate::text;
use crate::timeline;
use crate::types;
use crate::types::{
    ConversationView, InvocationView, MessageView, NormalizedConversation, NormalizedInvocation,
    NormalizedMessage, TITLE_LIMIT,
};
use vstd::prelude::*;
use vstd::utf8::*;

pub mod laws;

verus! {

/// The connector.
#[derive(Clone, Copy, Debug)]
pub struct MuseConnector;

impl Default for MuseConnector {
    fn default() -> (connector: MuseConnector)
        ensures
            connector == MuseConnector,
    {
        MuseConnector::new()
    }
}

/// What a log says of the tokens that its messages cost.
pub open spec fn token_coverage() -> Seq<char> {
    "model completion events are retained only in raw source; per-message attribution is unsupported"@
}

/// The lines of a byte stream. A line ends with a line feed, which a carriage
/// return may precede; the last may lack it.
pub open spec fn byte_lines(bytes: Seq<u8>) -> Seq<Seq<u8>>
    decreases bytes.len(),
{
    if bytes.len() == 0 {
        Seq::empty()
    } else {
        let end = text::first_index(bytes, 10u8) as int;
        if end >= bytes.len() {
            seq![bytes]
        } else {
            seq![without_return(bytes.take(end))] + byte_lines(bytes.skip(end + 1))
        }
    }
}

/// A line without the carriage return at its end.
pub open spec fn without_return(line: Seq<u8>) -> Seq<u8> {
    if line.len() > 0 && line.last() == 13u8 {
        line.drop_last()
    } else {
        line
    }
}

/// The texts of some lines, up to the first that is no text.
pub open spec fn readable(lines: Seq<Seq<u8>>) -> Seq<Seq<char>>
    decreases lines.len(),
{
    if lines.len() == 0 || !valid_utf8(lines[0]) {
        Seq::empty()
    } else {
        seq![decode_utf8(lines[0])] + readable(lines.skip(1))
    }
}

/// The records of a log, as they stand in it: the lines that are JSON documents.
pub open spec fn log_records(bytes: Seq<u8>) -> Seq<Tree> {
    document::read_ones(document::line_documents(text::nonblank(readable(byte_lines(bytes)))))
}

/// The number by which a record is ordered; one without counts as zero.
pub open spec fn sequence_of(record: Tree) -> int {
    match record.field("sequence"@) {
        Some(value) => match value.integer() {
            Some(number) => number as int,
            None => 0,
        },
        None => 0,
    }
}

/// Records with one put behind the last that does not come after it.
pub open spec fn placed(list: Seq<Tree>, record: Tree) -> Seq<Tree>
    decreases list.len(),
{
    if list.len() > 0 && sequence_of(record) < sequence_of(list.last()) {
        placed(list.drop_last(), record).push(list.last())
    } else {
        list.push(record)
    }
}

/// Records in the order of their numbers; those with one number keep theirs.
pub open spec fn in_sequence(records: Seq<Tree>) -> Seq<Tree>
    decreases records.len(),
{
    if records.len() == 0 {
        Seq::empty()
    } else {
        placed(in_sequence(records.drop_last()), records.last())
    }
}

/// The name of the stream of the first record that has one.
pub open spec fn stream_id(records: Seq<Tree>) -> Option<Seq<char>>
    decreases records.len(),
{
    if records.len() == 0 {
        None
    } else {
        let own = json::text_in(json::field_in(records[0].field("stream"@), "id"@));
        if own is Some {
            own
        } else {
            stream_id(records.skip(1))
        }
    }
}

/// The workspace that the first metadata record names.
pub open spec fn workspace_of(records: Seq<Tree>) -> Option<Seq<char>>
    decreases records.len(),
{
    if records.len() == 0 {
        None
    } else if records[0].text_at("payload_type"@) == Some("runtime.session.metadata"@) {
        json::text_in(
            json::field_in(json::field_in(records[0].field("payload"@), "record"@), "workspace_root"@),
        )
    } else {
        workspace_of(records.skip(1))
    }
}

/// The event of a record of a run.
pub open spec fn event_of(record: Tree) -> Option<Tree> {
    if record.text_at("payload_type"@) != Some("runtime.session"@) {
        None
    } else {
        match record.field("payload"@) {
            Some(payload) => if payload.text_at("kind"@) == Some("run"@) {
                payload.field("event"@)
            } else {
                None
            },
            None => None,
        }
    }
}

/// Whole milliseconds of a number of microseconds, cut towards zero.
pub open spec fn millis(micros: int) -> int {
    if micros >= 0 {
        micros / 1000
    } else {
        -((-micros) / 1000)
    }
}

/// When a record was made.
pub open spec fn recorded_at(record: Tree) -> Option<i64> {
    match record.field("recorded_at"@) {
        Some(value) => match value.integer() {
            Some(micros) => Some(millis(micros as int) as i64),
            None => None,
        },
        None => None,
    }
}

/// What a text stands for among arguments, given the JSON document that it is, if
/// it is one.
pub open spec fn text_argument(said: Seq<char>, read: Option<Tree>) -> Tree {
    match read {
        Some(value) => value,
        None => Tree::Text(said),
    }
}

/// The arguments of a tool call: a text that is a JSON document stands for it.
pub open spec fn call_arguments(arguments: Option<Tree>) -> Option<Tree> {
    match arguments {
        Some(Tree::Text(said)) => Some(text_argument(said, document::json_document(said))),
        _ => arguments,
    }
}

/// The tool call that a value is, if it has a name that is not blank.
pub open spec fn call_of(call: Tree) -> Option<InvocationView> {
    match call.text_at("name"@) {
        Some(name) => if text::trimmed(name).len() == 0 {
            None
        } else {
            Some(
                InvocationView {
                    kind: "tool"@,
                    name: text::trimmed(name),
                    raw_name: None,
                    call_id: call.text_at("call_id"@),
                    arguments: call_arguments(call.field("args"@)),
                },
            )
        },
        None => None,
    }
}

/// The tool calls among some values.
pub open spec fn calls_of(calls: Seq<Tree>) -> Seq<InvocationView>
    decreases calls.len(),
{
    if calls.len() == 0 {
        Seq::empty()
    } else {
        let before = calls_of(calls.drop_last());
        match call_of(calls.last()) {
            Some(call) => before.push(call),
            None => before,
        }
    }
}

/// The tool calls of an event.
pub open spec fn event_calls(event: Tree) -> Seq<InvocationView> {
    calls_of(json::items_or_none(event.items_at("tool_calls"@)))
}

/// The texts of some results.
pub open spec fn results_of(results: Seq<Tree>) -> Seq<Seq<char>>
    decreases results.len(),
{
    if results.len() == 0 {
        Seq::empty()
    } else {
        let before = results_of(results.drop_last());
        match results.last().text_at("text"@) {
            Some(said) => before.push(said),
            None => before,
        }
    }
}

/// What the results of an event say, with a line feed between each two.
pub open spec fn event_results(event: Tree) -> Seq<char> {
    text::joined(results_of(json::items_or_none(event.items_at("results"@))))
}

/// The message that a record is, if it is one of the four kinds that are.
pub open spec fn record_message(record: Tree) -> Option<MessageView> {
    match event_of(record) {
        None => None,
        Some(event) => {
            let kind = event.text_at("kind"@);
            let at = recorded_at(record);
            let none = Seq::<InvocationView>::empty();
            if kind == Some("started"@) {
                match event.text_at("prompt"@) {
                    Some(prompt) => Some(
                        types::draft("user"@, None, at, prompt, record, none),
                    ),
                    None => None,
                }
            } else if kind == Some("assistant_message_committed"@) {
                let said = match event.text_at("text"@) {
                    Some(said) => said,
                    None => Seq::empty(),
                };
                Some(types::draft("assistant"@, None, at, said, record, none))
            } else if kind == Some("assistant_tool_calls_committed"@) {
                if event_calls(event).len() > 0 {
                    Some(
                        types::draft(
                            "assistant"@,
                            None,
                            at,
                            Seq::empty(),
                            record,
                            event_calls(event),
                        ),
                    )
                } else {
                    None
                }
            } else if kind == Some("tool_result_batch_committed"@) {
                if event_results(event).len() > 0 {
                    Some(types::draft("tool"@, None, at, event_results(event), record, none))
                } else {
                    None
                }
            } else {
                None
            }
        },
    }
}

/// The messages of some records.
pub open spec fn records_messages(records: Seq<Tree>) -> Seq<MessageView>
    decreases records.len(),
{
    if records.len() == 0 {
        Seq::empty()
    } else {
        let before = records_messages(records.drop_last());
        match record_message(records.last()) {
            Some(message) => before.push(message),
            None => before,
        }
    }
}

/// The times of some records.
pub open spec fn records_stamps(records: Seq<Tree>) -> Seq<Option<i64>> {
    records.map_values(|record: Tree| recorded_at(record))
}

/// The title of the first message of the user.
pub open spec fn prompt_title(messages: Seq<MessageView>) -> Option<Seq<char>> {
    match types::first_content(messages, "user"@) {
        Some(said) => Some(text::cut(text::trimmed(said), TITLE_LIMIT as nat)),
        None => None,
    }
}

/// Whether a log is that of a nested agent.
pub open spec fn nested(path: Seq<Seq<char>>) -> bool {
    paths::name_in(paths::parent_in(paths::parent_of(path))) == Some("subagent"@)
}

/// Metadata that tells a nested agent.
pub open spec fn nesting(path: Seq<Seq<char>>) -> Tree {
    let id = if nested(path) {
        match paths::name_in(paths::parent_of(path)) {
            Some(name) => Tree::Text(name),
            None => Tree::Null,
        }
    } else {
        Tree::Null
    };
    Tree::Object(
        Map::empty().insert("is_subagent"@, Tree::Bool(nested(path))).insert(
            "subagent_id"@,
            id,
        ).insert("token_coverage"@, Tree::Text(token_coverage())),
    )
}

/// The conversation that some records, in sequence, are, if one of them is a
/// message. Its bounds in time are those of all the records.
pub open spec fn sequence_conversation(records: Seq<Tree>, path: Seq<Seq<char>>) -> Option<
    ConversationView,
> {
    let messages = records_messages(records);
    if messages.len() == 0 {
        None
    } else {
        Some(
            ConversationView {
                agent_slug: "muse"@,
                external_id: stream_id(records),
                title: prompt_title(messages),
                workspace: workspace_of(records),
                source_path: path,
                started_at: timeline::earliest(records_stamps(records)),
                ended_at: timeline::latest(records_stamps(records)),
                metadata: nesting(path),
                messages: types::numbered(messages),
            },
        )
    }
}

/// The conversation of a log.
pub open spec fn log_conversation(bytes: Seq<u8>, path: Seq<Seq<char>>) -> Option<
    ConversationView,
> {
    sequence_conversation(in_sequence(log_records(bytes)), path)
}

/// The workspace that a log names, in the order of its lines.
pub open spec fn log_workspace(bytes: Seq<u8>) -> Option<Seq<char>> {
    workspace_of(document::read_ones(document::line_documents(readable(byte_lines(bytes)))))
}

/// The log of the session that a nested agent belongs to.
pub open spec fn parent_log(path: Seq<Seq<char>>) -> Option<Seq<Seq<char>>> {
    let subagent = paths::parent_in(paths::parent_of(path));
    if paths::name_in(subagent) == Some("subagent"@) {
        match paths::parent_in(subagent) {
            Some(session) => Some(paths::under(session, "session.jsonl"@)),
            None => None,
        }
    } else {
        None
    }
}

/// The workspace of a log: its own, or that of the session that it is nested in.
pub open spec fn settled_workspace(
    own: Option<Seq<char>>,
    path: Seq<Seq<char>>,
    disk: DiskView,
) -> Option<Seq<char>> {
    if own is Some {
        own
    } else {
        match parent_log(path) {
            Some(parent) => match disk.bytes(parent) {
                Some(bytes) => log_workspace(bytes),
                None => None,
            },
            None => None,
        }
    }
}

/// The conversation of a file that can be read, if it has one.
pub open spec fn file_outcome(path: Seq<Seq<char>>, disk: DiskView) -> Result<
    Option<ConversationView>,
    ReadError,
> {
    match disk.bytes(path) {
        Some(bytes) => Ok(
            match log_conversation(bytes, path) {
                Some(found) => Some(
                    ConversationView {
                        workspace: settled_workspace(found.workspace, path, disk),
                        ..found
                    },
                ),
                None => None,
            },
        ),
        None => Err(ReadError::Unreadable),
    }
}

/// The conversation of a file, if it can be read and has one.
pub open spec fn file_conversation(path: Seq<Seq<char>>, disk: DiskView) -> Option<
    ConversationView,
> {
    match file_outcome(path, disk) {
        Ok(found) => found,
        Err(_) => None,
    }
}

/// Those of some files that are session logs.
pub open spec fn session_logs(files: Seq<Seq<Seq<char>>>) -> Seq<Seq<Seq<char>>>
    decreases files.len(),
{
    if files.len() == 0 {
        Seq::empty()
    } else {
        session_logs(files.drop_last()) + paths::only_if(
            paths::name_of(files.last()) == Some("session.jsonl"@),
            files.last(),
        )
    }
}

/// The session logs of a root, in order.
pub open spec fn root_files(root: Seq<Seq<char>>, disk: DiskView) -> Seq<Seq<Seq<char>>> {
    if !disk.present(root) {
        Seq::empty()
    } else {
        order::ordered::<FilePath>(session_logs(disk.walked(root)))
    }
}

/// Whether a path is the session directory of Muse.
pub open spec fn sessions_look(path: Seq<Seq<char>>) -> bool {
    paths::name_of(path) == Some("sessions"@) && paths::name_in(paths::parent_of(path)) == Some(
        "muse"@,
    )
}

/// The roots that a given path stands for.
pub open spec fn explicit_roots(base: Seq<Seq<char>>, disk: DiskView) -> Seq<Seq<Seq<char>>> {
    if disk.is_file(base) && paths::name_of(base) == Some("session.jsonl"@) {
        scan::probe_at(paths::parent_of(base))
    } else {
        let place = paths::under(base, ".local/share/muse/sessions"@);
        paths::only_if(sessions_look(base), base) + paths::only_if(
            paths::name_of(base) == Some("muse"@),
            paths::under(base, "sessions"@),
        ) + paths::only_if(disk.present(place), place)
    }
}

/// The roots that a given path stands for; the path itself where there is none
/// and it holds a session.
pub open spec fn roots_of(base: Seq<Seq<char>>, disk: DiskView) -> Seq<Seq<Seq<char>>> {
    let known = explicit_roots(base, disk);
    if known.len() == 0 {
        paths::only_if(root_files(base, disk).len() > 0, base)
    } else {
        known
    }
}

/// The roots that some given places stand for.
pub open spec fn given_roots(roots: Seq<RootView>, disk: DiskView) -> Seq<RootView>
    decreases roots.len(),
{
    if roots.len() == 0 {
        Seq::empty()
    } else {
        given_roots(roots.drop_last(), disk) + scan::roots_at(
            roots_of(roots.last().path, disk),
            roots.last().origin,
        )
    }
}

/// The default session directory.
pub open spec fn sessions_place(user: UserView) -> Option<Seq<Seq<char>>> {
    match user.home {
        Some(home) => Some(paths::under(home, ".local/share/muse/sessions"@)),
        None => None,
    }
}

/// The roots of the data directory: those that it stands for or, where there is
/// none, itself if it is a session directory by name or holds a session.
pub open spec fn data_roots(data_dir: Seq<Seq<char>>, disk: DiskView) -> Seq<Seq<Seq<char>>> {
    let known = explicit_roots(data_dir, disk);
    if known.len() == 0 && disk.present(data_dir) && paths::name_of(data_dir) == Some("sessions"@) {
        seq![data_dir]
    } else {
        roots_of(data_dir, disk)
    }
}

/// The default session directory, if it exists.
pub open spec fn default_root(user: UserView, disk: DiskView) -> Seq<Seq<Seq<char>>> {
    match sessions_place(user) {
        Some(place) => paths::only_if(disk.present(place), place),
        None => Seq::empty(),
    }
}

/// The roots to scan, each path once and in order.
pub open spec fn roots_to_scan(context: ContextView, user: UserView, disk: DiskView) -> Seq<
    RootView,
> {
    order::distinct::<ScanRoot>(
        if context.scan_roots.len() == 0 {
            let known = data_roots(context.data_dir, disk);
            scan::roots_at(
                if known.len() == 0 {
                    default_root(user, disk)
                } else {
                    known
                },
                "local"@,
            )
        } else {
            given_roots(context.scan_roots, disk) + scan::roots_at(
                roots_of(context.data_dir, disk),
                "local"@,
            )
        },
    )
}

/// The sources of some roots, as far as they changed since a time.
pub open spec fn roots_sources(roots: Seq<RootView>, since: Option<i64>, disk: DiskView) -> Seq<
    SourceView,
>
    decreases roots.len(),
{
    if roots.len() == 0 {
        Seq::empty()
    } else {
        roots_sources(roots.drop_last(), since, disk) + scan::fresh_sources(
            "muse"@,
            roots.last(),
            root_files(roots.last().path, disk),
            DiscoveredSourceRole::PrimarySessionLog,
            since,
            disk,
        )
    }
}

/// The sources to scan, each path once and in the order of the roots.
pub open spec fn sources(context: ContextView, user: UserView, disk: DiskView) -> Seq<SourceView> {
    order::once::<DiscoveredSourceFile>(
        roots_sources(roots_to_scan(context, user, disk), context.since_ts, disk),
    )
}

/// The conversations of some sources.
pub open spec fn in_sources(list: Seq<SourceView>, disk: DiskView) -> Seq<ConversationView>
    decreases list.len(),
{
    if list.len() == 0 {
        Seq::empty()
    } else {
        let before = in_sources(list.drop_last(), disk);
        match file_conversation(list.last().source_path, disk) {
            Some(conversation) => before.push(conversation),
            None => before,
        }
    }
}

/// What a scan finds.
pub open spec fn scanned(context: ContextView, user: UserView, disk: DiskView) -> Seq<
    ConversationView,
> {
    in_sources(sources(context, user, disk), disk)
}

/// A part of some bytes, copied.
fn copy_bytes(bytes: &Vec<u8>, from: usize, to: usize) -> (out: Vec<u8>)
    requires
        from <= to <= bytes.len(),
    ensures
        out@ == bytes@.subrange(from as int, to as int),
{
    let mut out: Vec<u8> = Vec::new();
    let mut i: usize = from;
    while i < to
        invariant
            from <= i <= to <= bytes.len(),
            out@ == bytes@.subrange(from as int, i as int),
        decreases to - i,
    {
        out.push(bytes[i]);
        i += 1;
    }
    out
}

/// The bytes of each of some lines.
spec fn line_views(lines: Seq<Vec<u8>>) -> Seq<Seq<u8>> {
    lines.map_values(|line: Vec<u8>| line@)
}

/// The lines of a byte stream.
fn split_lines(bytes: &Vec<u8>) -> (out: Vec<Vec<u8>>)
    ensures
        line_views(out@) == byte_lines(bytes@),
{
    let mut out: Vec<Vec<u8>> = Vec::new();
    let mut start: usize = 0;
    let mut i: usize = 0;
    assert(bytes@.skip(0) =~= bytes@);
    while i < bytes.len()
        invariant
            start <= i <= bytes.len(),
            forall|j: int| start <= j < i ==> bytes@[j] != 10u8,
            byte_lines(bytes@) =~= line_views(out@) + byte_lines(bytes@.skip(start as int)),
        decreases bytes.len() - i,
    {
        if bytes[i] == 10 {
            let ghost rest = bytes@.skip(start as int);
            let ghost before = out@;
            proof {
                assert forall|j: int| 0 <= j < i - start implies rest[j] != 10u8 by {
                    assert(rest[j] == bytes@[j + start]);
                }
                text::lemma_first_index(rest, 10u8, i - start);
                assert(rest.take(i - start) =~= bytes@.subrange(start as int, i as int));
                assert(rest.skip(i - start + 1) =~= bytes@.skip(i + 1));
            }
            let end = if i > start && bytes[i - 1] == 13 {
                i - 1
            } else {
                i
            };
            let line = copy_bytes(bytes, start, end);
            assert(line@ =~= without_return(rest.take(i - start)));
            out.push(line);
            assert(line_views(out@) =~= line_views(before).push(line@));
            start = i + 1;
        }
        i += 1;
    }
    if start < bytes.len() {
        let ghost rest = bytes@.skip(start as int);
        let ghost before = out@;
        proof {
            assert forall|j: int| 0 <= j < rest.len() implies rest[j] != 10u8 by {
                assert(rest[j] == bytes@[j + start]);
            }
            text::lemma_first_index(rest, 10u8, rest.len() as int);
        }
        let line = copy_bytes(bytes, start, bytes.len());
        assert(line@ =~= rest);
        out.push(line);
        assert(line_views(out@) =~= line_views(before).push(line@));
    }
    assert(line_views(out@) =~= byte_lines(bytes@));
    out
}

/// The texts of the lines of a byte stream, up to the first that is no text.
pub fn readable_lines(bytes: &Vec<u8>) -> (out: Vec<String>)
    ensures
        text::texts(out@) == readable(byte_lines(bytes@)),
{
    broadcast use text::lemma_texts_push;

    let lines = split_lines(bytes);
    let ghost all = line_views(lines@);
    let mut out: Vec<String> = Vec::new();
    let mut i: usize = 0;
    assert(all.skip(0) =~= all);
    while i < lines.len()
        invariant
            i <= lines.len(),
            all == line_views(lines@),
            all == byte_lines(bytes@),
            readable(all) =~= text::texts(out@) + readable(all.skip(i as int)),
        decreases lines.len() - i,
    {
        let ghost rest = all.skip(i as int);
        assert(rest[0] == lines[i as int]@);
        assert(rest.skip(1) =~= all.skip(i + 1));
        let line = copy_bytes(&lines[i], 0, lines[i].len());
        assert(line@ =~= lines[i as int]@);
        match text::text_from_bytes(line) {
            Some(said) => {
                out.push(said);
            },
            None => {
                assert(text::texts(out@) =~= readable(all));
                return out;
            },
        }
        i += 1;
    }
    assert(text::texts(out@) =~= readable(all));
    out
}

/// The number by which a record is ordered.
fn sequence(record: &Json) -> (number: i64)
    ensures
        number == sequence_of(record@),
{
    match record.get("sequence") {
        Some(value) => match value.as_i64() {
            Some(number) => number,
            None => 0,
        },
        None => 0,
    }
}

/// Where a record is put behind all that does not come after it.
proof fn lemma_placed(list: Seq<Tree>, record: Tree, at: int)
    requires
        0 <= at <= list.len(),
        at > 0 ==> sequence_of(record) >= sequence_of(list[at - 1]),
        forall|j: int|
            at <= j < list.len() ==> sequence_of(record) < sequence_of(#[trigger] list[j]),
    ensures
        placed(list, record) == list.insert(at, record),
    decreases list.len(),
{
    if at < list.len() {
        let before = list.drop_last();
        assert(list[list.len() - 1] == list.last());
        assert forall|j: int| at <= j < before.len() implies sequence_of(record) < sequence_of(
            #[trigger] before[j],
        ) by {
            assert(before[j] == list[j]);
        }
        lemma_placed(before, record, at);
        assert(list.insert(at, record) =~= before.insert(at, record).push(list.last()));
    } else {
        assert(list.insert(at, record) =~= list.push(record));
    }
}

/// Records in the order of their numbers; those with one number keep theirs.
pub fn order_records(records: Vec<Json>) -> (out: Vec<Json>)
    ensures
        json::trees_of(out@) == in_sequence(json::trees_of(records@)),
{
    broadcast use json::group_trees;

    let ghost all = json::trees_of(records@);
    let mut out: Vec<Json> = Vec::new();
    assert(json::trees_of(out@) =~= in_sequence(all.take(0)));
    for record in it: records
        invariant
            it.seq() == records@,
            all == json::trees_of(records@),
            json::trees_of(out@) == in_sequence(all.take(it.index() as int)),
    {
        broadcast use json::group_trees;

        let ghost before = json::trees_of(out@);
        assert(all.take(it.index() + 1).drop_last() =~= all.take(it.index() as int));
        assert(all.take(it.index() + 1).last() == record@);
        let number = sequence(&record);
        let mut at: usize = out.len();
        while at > 0 && number < sequence(&out[at - 1])
            invariant
                at <= out.len(),
                before == json::trees_of(out@),
                number == sequence_of(record@),
                forall|j: int|
                    at <= j < out.len() ==> sequence_of(record@) < sequence_of(
                        #[trigger] before[j],
                    ),
            decreases at,
        {
            broadcast use json::group_trees;

            assert(before[at - 1] == out[at - 1]@);
            at -= 1;
        }
        proof {
            assert(before.len() == out.len());
            if at > 0 {
                assert(before[at - 1] == out[at - 1]@);
            }
            lemma_placed(before, record@, at as int);
        }
        out.insert(at, record);
        assert(json::trees_of(out@) =~= before.insert(at as int, record@));
    }
    assert(all.take(all.len() as int) =~= all);
    out
}

/// The workspace that the first metadata record names.
pub fn workspace_root(records: &Vec<Json>) -> (workspace: Option<String>)
    ensures
        text::held(workspace) == workspace_of(json::trees_of(records@)),
{
    broadcast use json::group_trees;

    let ghost all = json::trees_of(records@);
    let mut i: usize = 0;
    assert(all.skip(0) =~= all);
    while i < records.len()
        invariant
            i <= records.len(),
            all == json::trees_of(records@),
            workspace_of(all) == workspace_of(all.skip(i as int)),
        decreases records.len() - i,
    {
        let record = &records[i];
        assert(all.skip(i as int)[0] == record@);
        assert(all.skip(i as int).skip(1) =~= all.skip(i + 1));
        if content::is_text(record.get("payload_type"), "runtime.session.metadata") {
            return content::string_in(
                json::get_in(json::get_in(record.get("payload"), "record"), "workspace_root"),
            );
        }
        i += 1;
    }
    None
}

/// The workspace that a log names, in the order of its lines.
pub fn workspace_root_from_reader(bytes: &Vec<u8>) -> (workspace: Option<String>)
    ensures
        text::held(workspace) == log_workspace(bytes@),
{
    let lines = readable_lines(bytes);
    let records = document::parse_lines(&lines);
    workspace_root(&records)
}

/// The event of a record of a run.
pub fn run_event(record: &Json) -> (event: Option<&Json>)
    ensures
        json::seen(event) == event_of(record@),
{
    if !content::is_text(record.get("payload_type"), "runtime.session") {
        return None;
    }
    match record.get("payload") {
        Some(payload) => {
            if content::is_text(payload.get("kind"), "run") {
                payload.get("event")
            } else {
                None
            }
        },
        None => None,
    }
}

/// When a record was made, in milliseconds.
pub fn recorded_at_millis(record: &Json) -> (at: Option<i64>)
    ensures
        at == recorded_at(record@),
{
    match record.get("recorded_at") {
        Some(value) => match value.as_i64() {
            Some(micros) => {
                if micros >= 0 {
                    Some(micros / 1000)
                } else {
                    let below: u64 = (-(micros + 1)) as u64;
                    let size: u64 = (below + 1) / 1000;
                    Some(-(size as i64))
                }
            },
            None => None,
        },
        None => None,
    }
}

/// What a call that may be absent says.
spec fn held_call(call: Option<NormalizedInvocation>) -> Option<InvocationView> {
    match call {
        Some(inner) => Some(inner@),
        None => None,
    }
}

/// What a text stands for among arguments, given the JSON document that it is, if
/// it is one.
pub fn argument_of(said: &str, read: Option<Json>) -> (argument: Json)
    ensures
        argument@ == text_argument(said@, document::held(read)),
{
    match read {
        Some(value) => value,
        None => Json::Text(said.to_owned()),
    }
}

/// The tool call that a value is.
fn tool_call(call: &Json) -> (out: Option<NormalizedInvocation>)
    ensures
        held_call(out) == call_of(call@),
{
    let name = match call.str_at("name") {
        Some(name) => text::trim(name),
        None => {
            return None;
        },
    };
    if name.as_str().is_empty() {
        return None;
    }
    let arguments = match call.get("args") {
        Some(Json::Text(said)) => Some(
            argument_of(said.as_str(), document::parse_json(said.as_str())),
        ),
        Some(other) => Some(other.copy()),
        None => None,
    };
    Some(
        NormalizedInvocation {
            kind: "tool".to_owned(),
            name,
            raw_name: None,
            call_id: content::string_in(call.get("call_id")),
            arguments,
        },
    )
}

/// The tool calls of an event.
pub fn tool_calls(event: &Json) -> (calls: Vec<NormalizedInvocation>)
    ensures
        types::invocations_of(calls@) == event_calls(event@),
{
    broadcast use json::group_trees;

    let mut out: Vec<NormalizedInvocation> = Vec::new();
    assert(types::invocations_of(out@) =~= Seq::empty());
    if let Some(calls) = event.array_at("tool_calls") {
        let ghost trees = json::trees_of(calls@);
        let mut i: usize = 0;
        while i < calls.len()
            invariant
                i <= calls.len(),
                trees == json::trees_of(calls@),
                types::invocations_of(out@) =~= calls_of(trees.take(i as int)),
            decreases calls.len() - i,
        {
            let ghost before = out@;
            assert(trees.take(i + 1).drop_last() =~= trees.take(i as int));
            assert(trees.take(i + 1).last() == calls[i as int]@);
            if let Some(call) = tool_call(&calls[i]) {
                out.push(call);
                assert(types::invocations_of(out@) =~= types::invocations_of(before).push(call@));
            }
            i += 1;
        }
        assert(trees.take(i as int) =~= trees);
    }
    out
}

/// What the results of an event say.
pub fn tool_results(event: &Json) -> (said: String)
    ensures
        said@ == event_results(event@),
{
    broadcast use json::group_trees, text::lemma_texts_push;

    let mut out: Vec<String> = Vec::new();
    assert(text::texts(out@) =~= Seq::empty());
    if let Some(results) = event.array_at("results") {
        let ghost trees = json::trees_of(results@);
        let mut i: usize = 0;
        while i < results.len()
            invariant
                i <= results.len(),
                trees == json::trees_of(results@),
                text::texts(out@) =~= results_of(trees.take(i as int)),
            decreases results.len() - i,
        {
            broadcast use text::lemma_texts_push;

            assert(trees.take(i + 1).drop_last() =~= trees.take(i as int));
            assert(trees.take(i + 1).last() == results[i as int]@);
            if let Some(said) = results[i].str_at("text") {
                out.push(said.to_owned());
            }
            i += 1;
        }
        assert(trees.take(i as int) =~= trees);
    }
    text::join_lines(&out)
}

/// A text without the white space around it, cut to the length of a title.
pub fn truncate(said: &str) -> (out: String)
    ensures
        out@ == text::cut(text::trimmed(said@), TITLE_LIMIT as nat),
{
    let short = text::trim(said);
    text::cut_to(short.as_str(), TITLE_LIMIT)
}

/// A view of a path that tells nested agents.
pub struct SelfPath;

impl SelfPath {
    /// Whether a log is that of a nested agent.
    pub fn is_subagent(path: &FilePath) -> (yes: bool)
        ensures
            yes == nested(path@),
    {
        match path.parent() {
            Some(parent) => parent.parent_is_named("subagent"),
            None => false,
        }
    }
}

/// Puts a message at the end of some.
pub fn push_message(
    messages: &mut Vec<NormalizedMessage>,
    role: &str,
    said: String,
    created_at: Option<i64>,
    invocations: Vec<NormalizedInvocation>,
    record: &Json,
)
    ensures
        types::messages_of(final(messages)@) == types::appended(
            types::messages_of(old(messages)@),
            types::draft(
                role@,
                None,
                created_at,
                said@,
                record@,
                types::invocations_of(invocations@),
            ),
        ),
{
    types::add_message(messages, role, None, created_at, said, record.copy(), invocations);
}

/// Adds the message that a record is.
fn add_record(
    messages: &mut Vec<NormalizedMessage>,
    record: &Json,
    Ghost(drafts): Ghost<Seq<MessageView>>,
)
    requires
        types::messages_of(old(messages)@) == types::numbered(drafts),
    ensures
        types::messages_of(final(messages)@) == types::numbered(
            match record_message(record@) {
                Some(message) => drafts.push(message),
                None => drafts,
            },
        ),
{
    broadcast use types::lemma_numbered_push;

    let event = match run_event(record) {
        Some(event) => event,
        None => {
            return;
        },
    };
    let at = recorded_at_millis(record);
    let kind = event.get("kind");
    let none = Vec::new();
    assert(types::invocations_of(none@) =~= Seq::empty());
    if content::is_text(kind, "started") {
        if let Some(prompt) = event.str_at("prompt") {
            push_message(messages, "user", prompt.to_owned(), at, none, record);
        }
    } else if content::is_text(kind, "assistant_message_committed") {
        let said = match event.str_at("text") {
            Some(said) => said.to_owned(),
            None => String::new(),
        };
        push_message(messages, "assistant", said, at, none, record);
    } else if content::is_text(kind, "assistant_tool_calls_committed") {
        let calls = tool_calls(event);
        assert(types::invocations_of(calls@).len() == calls.len());
        if calls.len() > 0 {
            push_message(messages, "assistant", String::new(), at, calls, record);
        }
    } else if content::is_text(kind, "tool_result_batch_committed") {
        let said = tool_results(event);
        if !said.as_str().is_empty() {
            push_message(messages, "tool", said, at, none, record);
        }
    }
}

/// The name of the stream of the first record that has one.
fn first_stream(records: &Vec<Json>) -> (id: Option<String>)
    ensures
        text::held(id) == stream_id(json::trees_of(records@)),
{
    broadcast use json::group_trees;

    let ghost all = json::trees_of(records@);
    let mut i: usize = 0;
    assert(all.skip(0) =~= all);
    while i < records.len()
        invariant
            i <= records.len(),
            all == json::trees_of(records@),
            stream_id(all) == stream_id(all.skip(i as int)),
        decreases records.len() - i,
    {
        let record = &records[i];
        assert(all.skip(i as int)[0] == record@);
        assert(all.skip(i as int).skip(1) =~= all.skip(i + 1));
        let own = content::string_in(json::get_in(record.get("stream"), "id"));
        if own.is_some() {
            return own;
        }
        i += 1;
    }
    None
}

/// Metadata that tells a nested agent.
fn nesting_of(path: &FilePath) -> (metadata: Json)
    ensures
        metadata@ == nesting(path@),
{
    let inside = SelfPath::is_subagent(path);
    let id = if inside {
        match path.parent() {
            Some(parent) => match parent.file_name() {
                Some(name) => Json::Text(name.to_owned()),
                None => Json::Null,
            },
            None => Json::Null,
        }
    } else {
        Json::Null
    };
    let first = Member { key: "is_subagent".to_owned(), value: Json::Bool(inside) };
    let second = Member { key: "subagent_id".to_owned(), value: id };
    let third = Member {
        key: "token_coverage".to_owned(),
        value: Json::Text(
            "model completion events are retained only in raw source; per-message attribution is unsupported".to_owned(),
        ),
    };
    let mut members: Vec<Member> = Vec::new();
    proof {
        reveal_strlit("is_subagent");
        reveal_strlit("subagent_id");
        reveal_strlit("token_coverage");
        assert("is_subagent"@[0] != "subagent_id"@[0]);
        assert("token_coverage"@.len() != "subagent_id"@.len());
        assert("token_coverage"@.len() != "is_subagent"@.len());
        assert(json::fields_of(members@) =~= Map::empty());
        json::lemma_fields_push(members@, first);
        json::lemma_fields_push(members@.push(first), second);
        json::lemma_fields_push(members@.push(first).push(second), third);
    }
    members.push(first);
    members.push(second);
    members.push(third);
    Json::Object(members)
}

/// The conversation that some records are, in the order of their numbers.
pub fn parse_records(unordered: Vec<Json>, source_path: &FilePath) -> (found: Option<
    NormalizedConversation,
>)
    ensures
        types::held_conversation(found) == sequence_conversation(
            in_sequence(json::trees_of(unordered@)),
            source_path@,
        ),
{
    broadcast use json::group_trees;

    let records = order_records(unordered);
    let ghost trees = json::trees_of(records@);
    let mut messages: Vec<NormalizedMessage> = Vec::new();
    let mut started_at: Option<i64> = None;
    let mut ended_at: Option<i64> = None;
    let mut i: usize = 0;
    assert(types::messages_of(messages@) =~= types::numbered(records_messages(trees.take(0))));
    assert(records_stamps(trees.take(0)) =~= Seq::empty());
    while i < records.len()
        invariant
            i <= records.len(),
            trees == json::trees_of(records@),
            types::messages_of(messages@) == types::numbered(
                records_messages(trees.take(i as int)),
            ),
            started_at == timeline::earliest(records_stamps(trees.take(i as int))),
            ended_at == timeline::latest(records_stamps(trees.take(i as int))),
        decreases records.len() - i,
    {
        let record = &records[i];
        let at = recorded_at_millis(record);
        proof {
            assert(trees.take(i + 1).drop_last() =~= trees.take(i as int));
            assert(trees.take(i + 1).last() == record@);
            timeline::lemma_bounds_push(records_stamps(trees.take(i as int)), at);
            assert(records_stamps(trees.take(i + 1)) =~= records_stamps(trees.take(i as int)).push(
                at,
            ));
        }
        started_at = timeline::min_timestamp(started_at, at);
        ended_at = timeline::max_timestamp(ended_at, at);
        add_record(&mut messages, record, Ghost(records_messages(trees.take(i as int))));
        i += 1;
    }
    assert(trees.take(i as int) =~= trees);
    let ghost drafts = records_messages(trees);
    assert(types::messages_of(messages@).len() == drafts.len());
    if messages.len() == 0 {
        return None;
    }
    proof {
        types::lemma_numbered_first(drafts, "user"@);
    }
    let at = types::first_of(&messages, "user");
    let title = if at < messages.len() {
        Some(truncate(messages[at].content.as_str()))
    } else {
        None
    };
    Some(
        NormalizedConversation {
            agent_slug: "muse".to_owned(),
            external_id: first_stream(&records),
            title,
            workspace: workspace_root(&records),
            source_path: source_path.copy(),
            started_at,
            ended_at,
            metadata: nesting_of(source_path),
            messages,
        },
    )
}

/// The conversation of a log.
pub fn parse_reader(bytes: &Vec<u8>, source_path: &FilePath) -> (found: Option<
    NormalizedConversation,
>)
    ensures
        types::held_conversation(found) == log_conversation(bytes@, source_path@),
{
    let all = readable_lines(bytes);
    let lines = text::nonblank_lines(&all);
    let records = document::parse_lines(&lines);
    parse_records(records, source_path)
}

impl MuseConnector {
    /// The connector.
    #[must_use]
    pub fn new() -> (connector: MuseConnector)
        ensures
            connector == MuseConnector,
    {
        MuseConnector
    }

    /// The default session directory.
    pub fn sessions_root(user: &UserDirs) -> (place: Option<FilePath>)
        ensures
            paths::held(place) == sessions_place(user@),
    {
        match &user.home {
            Some(home) => Some(home.join(".local/share/muse/sessions")),
            None => None,
        }
    }

    /// Whether a path is the session directory of Muse.
    pub fn looks_like_sessions_root(path: &FilePath) -> (yes: bool)
        ensures
            yes == sessions_look(path@),
    {
        path.is_named("sessions") && path.parent_is_named("muse")
    }

    /// Puts the roots that a given path stands for behind others.
    pub fn append_explicit_roots(out: &mut Vec<FilePath>, base: &FilePath, disk: &Disk)
        ensures
            paths::views(final(out)@) == paths::views(old(out)@) + explicit_roots(base@, disk@),
    {
        broadcast use paths::lemma_views_push;

        let ghost before = paths::views(out@);
        if disk.is_file(base) && base.is_named("session.jsonl") {
            if let Some(parent) = base.parent() {
                out.push(parent);
                assert(before.push(parent@) =~= before + seq![parent@]);
            } else {
                assert(before =~= before + Seq::empty());
            }
            return;
        }
        let place = base.join(".local/share/muse/sessions");
        let inner = base.join("sessions");
        paths::push_if(out, Self::looks_like_sessions_root(base), base);
        paths::push_if(out, base.is_named("muse"), &inner);
        paths::push_if(out, disk.present(&place), &place);
        assert(paths::views(out@) =~= before + explicit_roots(base@, disk@));
    }

    /// The session logs of a root, in order.
    pub fn session_files(root: &FilePath, disk: &Disk) -> (files: Vec<FilePath>)
        ensures
            paths::views(files@) == root_files(root@, disk@),
    {
        let mut out: Vec<FilePath> = Vec::new();
        assert(paths::views(out@) =~= Seq::empty());
        if !disk.present(root) {
            return out;
        }
        let list = disk.walked(root);
        let ghost all = paths::views(list@);
        let mut i: usize = 0;
        while i < list.len()
            invariant
                i <= list.len(),
                all == paths::views(list@),
                paths::views(out@) =~= session_logs(all.take(i as int)),
            decreases list.len() - i,
        {
            assert(all.take(i + 1).drop_last() =~= all.take(i as int));
            assert(all.take(i + 1).last() == list[i as int]@);
            paths::push_if(&mut out, list[i].is_named("session.jsonl"), &list[i]);
            i += 1;
        }
        assert(all.take(i as int) =~= all);
        order::in_order(out)
    }

    /// The roots that a given path stands for; the path itself where there is
    /// none and it holds a session.
    fn roots_below(base: &FilePath, disk: &Disk) -> (out: Vec<FilePath>)
        ensures
            paths::views(out@) == roots_of(base@, disk@),
    {
        let mut out: Vec<FilePath> = Vec::new();
        Self::append_explicit_roots(&mut out, base, disk);
        assert(paths::views(out@) =~= explicit_roots(base@, disk@));
        assert(paths::views(out@).len() == out.len());
        if out.len() == 0 {
            let files = Self::session_files(base, disk);
            assert(paths::views(files@).len() == files.len());
            paths::push_if(&mut out, files.len() > 0, base);
            assert(paths::views(out@) =~= roots_of(base@, disk@));
        }
        out
    }

    /// The roots of the data directory.
    fn roots_of_data(data_dir: &FilePath, disk: &Disk) -> (out: Vec<FilePath>)
        ensures
            paths::views(out@) == data_roots(data_dir@, disk@),
    {
        let mut known: Vec<FilePath> = Vec::new();
        Self::append_explicit_roots(&mut known, data_dir, disk);
        assert(paths::views(known@) =~= explicit_roots(data_dir@, disk@));
        assert(paths::views(known@).len() == known.len());
        if known.len() == 0 && disk.present(data_dir) && data_dir.is_named("sessions") {
            let mut out: Vec<FilePath> = Vec::new();
            out.push(data_dir.copy());
            assert(paths::views(out@) =~= seq![data_dir@]);
            return out;
        }
        Self::roots_below(data_dir, disk)
    }

    /// The roots to scan, each path once and in order.
    pub fn source_roots(context: &ScanContext, user: &UserDirs, disk: &Disk) -> (roots: Vec<
        ScanRoot,
    >)
        ensures
            order::seen::<ScanRoot>(roots@) == roots_to_scan(context@, user@, disk@),
    {
        let here = ScanRoot::local(context.data_dir.copy());
        let mut roots: Vec<ScanRoot> = Vec::new();
        assert(order::seen::<ScanRoot>(roots@) =~= Seq::empty());
        if context.use_default_detection() {
            let mut known = Self::roots_of_data(&context.data_dir, disk);
            assert(paths::views(known@).len() == known.len());
            if known.len() == 0 {
                if let Some(place) = Self::sessions_root(user) {
                    paths::push_if(&mut known, disk.present(&place), &place);
                }
                assert(paths::views(known@) =~= default_root(user@, disk@));
            }
            let ghost list = paths::views(known@);
            scan::push_roots(&mut roots, known, &here);
            assert(order::seen::<ScanRoot>(roots@) =~= scan::roots_at(list, "local"@));
        } else {
            let ghost given = context@.scan_roots;
            let mut i: usize = 0;
            while i < context.scan_roots.len()
                invariant
                    i <= context.scan_roots.len(),
                    given == context@.scan_roots,
                    order::seen::<ScanRoot>(roots@) =~= given_roots(given.take(i as int), disk@),
                decreases context.scan_roots.len() - i,
            {
                let root = &context.scan_roots[i];
                assert(given.take(i + 1).drop_last() =~= given.take(i as int));
                assert(given.take(i + 1).last() == root@);
                let list = Self::roots_below(&root.path, disk);
                scan::push_roots(&mut roots, list, root);
                i += 1;
            }
            assert(given.take(i as int) =~= given);
            let list = Self::roots_below(&context.data_dir, disk);
            scan::push_roots(&mut roots, list, &here);
        }
        order::in_order_once(roots)
    }

    /// The sources to scan, each path once and in the order of the roots.
    pub fn discover_sources(context: &ScanContext, user: &UserDirs, disk: &Disk) -> (found: Vec<
        DiscoveredSourceFile,
    >)
        ensures
            order::seen::<DiscoveredSourceFile>(found@) == sources(context@, user@, disk@),
    {
        let roots = Self::source_roots(context, user, disk);
        let ghost all = order::seen::<ScanRoot>(roots@);
        let mut out: Vec<DiscoveredSourceFile> = Vec::new();
        let mut i: usize = 0;
        assert(order::seen::<DiscoveredSourceFile>(out@) =~= Seq::empty());
        while i < roots.len()
            invariant
                i <= roots.len(),
                all == order::seen::<ScanRoot>(roots@),
                order::seen::<DiscoveredSourceFile>(out@) == roots_sources(
                    all.take(i as int),
                    context@.since_ts,
                    disk@,
                ),
            decreases roots.len() - i,
        {
            let root = &roots[i];
            assert(all.take(i + 1).drop_last() =~= all.take(i as int));
            assert(all.take(i + 1).last() == root@);
            let files = Self::session_files(&root.path, disk);
            scan::add_fresh_sources(
                &mut out,
                "muse",
                root,
                &files,
                DiscoveredSourceRole::PrimarySessionLog,
                context.since_ts,
                disk,
            );
            i += 1;
        }
        assert(all.take(i as int) =~= all);
        order::keep_once(out)
    }

    /// The log of the session that a nested agent belongs to.
    pub fn parent_session_log(path: &FilePath) -> (log: Option<FilePath>)
        ensures
            paths::held(log) == parent_log(path@),
    {
        let subagent = match path.parent() {
            Some(parent) => match parent.parent() {
                Some(subagent) => subagent,
                None => {
                    return None;
                },
            },
            None => {
                return None;
            },
        };
        if !subagent.is_named("subagent") {
            return None;
        }
        match subagent.parent() {
            Some(session) => Some(session.join("session.jsonl")),
            None => None,
        }
    }

    /// The conversation of a file that can be read, if it has one. A nested agent
    /// works in the workspace of its session unless it names one itself.
    pub fn parse_file(path: &FilePath, disk: &Disk) -> (outcome: Result<
        Option<NormalizedConversation>,
        ReadError,
    >)
        ensures
            types::held_outcome(outcome) == file_outcome(path@, disk@),
    {
        let bytes = match disk.bytes(path) {
            Some(bytes) => bytes,
            None => {
                return Err(ReadError::Unreadable);
            },
        };
        match parse_reader(bytes, path) {
            Some(own) => {
                let mut conversation = own;
                if conversation.workspace.is_none() {
                    if let Some(parent) = Self::parent_session_log(path) {
                        if let Some(log) = disk.bytes(&parent) {
                            conversation.workspace = workspace_root_from_reader(log);
                        }
                    }
                }
                Ok(Some(conversation))
            },
            None => Ok(None),
        }
    }

    /// The conversation of every source. A file that cannot be read is passed
    /// over.
    pub fn scan(&self, context: &ScanContext, user: &UserDirs, disk: &Disk) -> (found: Vec<
        NormalizedConversation,
    >)
        ensures
            types::conversations_of(found@) == scanned(context@, user@, disk@),
    {
        broadcast use types::lemma_conversations_push;

        let list = Self::discover_sources(context, user, disk);
        let ghost all = order::seen::<DiscoveredSourceFile>(list@);
        let mut out: Vec<NormalizedConversation> = Vec::new();
        let mut i: usize = 0;
        assert(types::conversations_of(out@) =~= Seq::empty());
        while i < list.len()
            invariant
                i <= list.len(),
                all == order::seen::<DiscoveredSourceFile>(list@),
                types::conversations_of(out@) == in_sources(all.take(i as int), disk@),
            decreases list.len() - i,
        {
            assert(all.take(i + 1).drop_last() =~= all.take(i as int));
            assert(all.take(i + 1).last() == list[i as int]@);
            if let Ok(Some(conversation)) = Self::parse_file(&list[i].source_path, disk) {
                out.push(conversation);
            }
            i += 1;
        }
        assert(all.take(i as int) =~= all);
        out
    }

    /// The files that a scan reads.
    pub fn discover_source_files(&self, context: &ScanContext, user: &UserDirs, disk: &Disk) -> (
    found: Vec<DiscoveredSourceFile>)
        ensures
            order::seen::<DiscoveredSourceFile>(found@) == sources(context@, user@, disk@),
    {
        Self::discover_sources(context, user, disk)
    }

    /// Whether Muse is installed, by its session directory.
    pub fn detect(&self, user: &UserDirs, disk: &Disk) -> (result: DetectionResult)
        ensures
            result@ == scan::detection(scan::probe_at(sessions_place(user@)), disk@),
    {
        scan::detect_one(Self::sessions_root(user), disk)
    }
}

} // verus!
