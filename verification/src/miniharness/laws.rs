//! What holds of every scan for Miniharness's conversations.
use crate::content;
use crate::disk::DiskView;
use crate::json;
use crate::json::Tree;
use crate::miniharness;
use crate::order;
use crate::order::Located;
use crate::paths;
use crate::paths::FilePath;
use crate::scan;
use crate::scan::{
    ContextView, DiscoveredSourceFile, DiscoveredSourceRole, RootView, SourceView, UserView,
};
use crate::text;
use crate::timeline;
use crate::types;
use crate::types::MessageView;
use vstd::prelude::*;

pub mod logs;
pub mod places;

verus! {

/// The messages of some records are the user's and the assistant's, each with
/// the whole record it stems from.
proof fn lemma_messages_stem(records: Seq<Tree>)
    ensures
        forall|i: int|
            0 <= i < miniharness::records_messages(records).len() ==> {
                let message = #[trigger] miniharness::records_messages(records)[i];
                &&& message.role == "user"@ || message.role == "assistant"@
                &&& records.contains(message.extra)
            },
        forall|k: int|
            0 <= k < records.len() && miniharness::role_in(#[trigger] records[k]) is Some
                ==> miniharness::records_messages(records).contains(
                miniharness::record_message(
                    records[k],
                    miniharness::role_in(records[k])->Some_0,
                ),
            ),
    decreases records.len(),
{
    if records.len() > 0 {
        let earlier = records.drop_last();
        let before = miniharness::records_messages(earlier);
        let out = miniharness::records_messages(records);
        lemma_messages_stem(earlier);
        assert(records[records.len() - 1] == records.last());
        assert forall|i: int| 0 <= i < out.len() implies ({
            let message = #[trigger] out[i];
            &&& message.role == "user"@ || message.role == "assistant"@
            &&& records.contains(message.extra)
        }) by {
            if i < before.len() {
                assert(out[i] == before[i]);
                let k = choose|k: int| 0 <= k < earlier.len() && earlier[k] == before[i].extra;
                assert(records[k] == out[i].extra);
            }
        }
        assert forall|k: int|
            0 <= k < records.len() && miniharness::role_in(
                #[trigger] records[k],
            ) is Some implies out.contains(
            miniharness::record_message(records[k], miniharness::role_in(records[k])->Some_0),
        ) by {
            let message = miniharness::record_message(
                records[k],
                miniharness::role_in(records[k])->Some_0,
            );
            if k < earlier.len() {
                assert(earlier[k] == records[k]);
                let n = choose|n: int| 0 <= n < before.len() && before[n] == message;
                assert(out[n] == message);
            } else {
                assert(out[out.len() - 1] == message);
            }
        }
    }
}

/// The messages of a conversation are the user's and the assistant's, carry
/// their places, and keep the whole records that they stem from.
pub proof fn law_messages_keep_their_records(records: Seq<Tree>, path: Seq<Seq<char>>, at: int)
    requires
        miniharness::records_conversation(records, path) is Some,
        0 <= at < miniharness::records_conversation(records, path)->Some_0.messages.len(),
    ensures
        ({
            let message = miniharness::records_conversation(records, path)->Some_0.messages[at];
            &&& message.role == "user"@ || message.role == "assistant"@
            &&& message.idx == types::number(at)
            &&& records.contains(message.extra)
        }),
{
    lemma_messages_stem(records);
    let drafts = miniharness::records_messages(records);
    assert(types::numbered(drafts)[at].extra == drafts[at].extra);
}

/// The assistant speaks in every conversation.
pub proof fn law_the_assistant_speaks(records: Seq<Tree>, path: Seq<Seq<char>>)
    requires
        miniharness::records_conversation(records, path) is Some,
    ensures
        miniharness::has_role(
            miniharness::records_conversation(records, path)->Some_0.messages,
            "assistant"@,
        ),
{
    let drafts = miniharness::records_messages(records);
    let i = choose|i: int| 0 <= i < drafts.len() && (#[trigger] drafts[i]).role == "assistant"@;
    assert(types::numbered(drafts)[i].role == "assistant"@);
}

/// Every record with a message of the user or of the assistant is kept whole.
pub proof fn law_no_message_is_dropped(records: Seq<Tree>, path: Seq<Seq<char>>, at: int)
    requires
        miniharness::records_conversation(records, path) is Some,
        0 <= at < records.len(),
        miniharness::role_in(records[at]) is Some,
    ensures
        exists|i: int|
            0 <= i < miniharness::records_conversation(records, path)->Some_0.messages.len() && (
            #[trigger] miniharness::records_conversation(
                records,
                path,
            )->Some_0.messages[i]).extra == records[at],
{
    lemma_messages_stem(records);
    let drafts = miniharness::records_messages(records);
    let message = miniharness::record_message(
        records[at],
        miniharness::role_in(records[at])->Some_0,
    );
    assert(drafts.contains(message));
    let i = choose|i: int| 0 <= i < drafts.len() && drafts[i] == message;
    let messages = miniharness::records_conversation(records, path)->Some_0.messages;
    assert(messages[i].extra == records[at]);
}

/// Without a start in the header, a conversation does not start after it ends;
/// with one, its start is the header's.
pub proof fn law_bounds_are_in_order(records: Seq<Tree>, path: Seq<Seq<char>>)
    requires
        miniharness::records_conversation(records, path) is Some,
    ensures
        ({
            let conversation = miniharness::records_conversation(records, path)->Some_0;
            let header = content::stamp_in(
                json::field_in(miniharness::last_header(records), "createdAt"@),
            );
            &&& header is Some ==> conversation.started_at == header
            &&& conversation.started_at is Some <==> conversation.ended_at is Some
            &&& header is None && conversation.started_at is Some
                ==> conversation.started_at->Some_0 <= conversation.ended_at->Some_0
        }),
{
    timeline::law_bounds_enclose(types::stamps_of(miniharness::records_messages(records)));
}

/// A title is no longer than a title may be.
pub proof fn law_title_is_short(messages: Seq<MessageView>)
    requires
        miniharness::spoken_title(messages) is Some,
    ensures
        miniharness::spoken_title(messages)->Some_0.len() <= types::TITLE_LIMIT,
    decreases messages.len(),
{
    if messages.len() > 0 && !(messages[0].role == "user"@ && !text::is_blank(
        messages[0].content,
    )) {
        law_title_is_short(messages.skip(1));
    }
}

proof fn lemma_line_logs(files: Seq<Seq<Seq<char>>>)
    ensures
        forall|i: int|
            0 <= i < miniharness::line_logs(files).len() ==> paths::lines_look(
                #[trigger] miniharness::line_logs(files)[i],
            ),
    decreases files.len(),
{
    if files.len() > 0 {
        let before = miniharness::line_logs(files.drop_last());
        let out = miniharness::line_logs(files);
        lemma_line_logs(files.drop_last());
        assert forall|i: int| 0 <= i < out.len() implies paths::lines_look(#[trigger] out[i]) by {
            if i < before.len() {
                assert(out[i] == before[i]);
            }
        }
    }
}

/// A session file that a directory yields is what the file itself yields as a
/// root.
pub proof fn law_file_roots_agree_with_directories(
    root: Seq<Seq<char>>,
    disk: DiskView,
    at: int,
)
    requires
        0 <= at < miniharness::root_files(root, disk).len(),
        disk.is_file(miniharness::root_files(root, disk)[at]),
    ensures
        miniharness::root_files(miniharness::root_files(root, disk)[at], disk) == seq![
            miniharness::root_files(root, disk)[at],
        ],
{
    if !disk.is_file(root) {
        let all = miniharness::line_logs(disk.walked(root));
        lemma_line_logs(disk.walked(root));
        order::law_distinct_keeps_each_path_once::<FilePath>(all);
        assert(all.contains(order::distinct::<FilePath>(all)[at]));
        let k = choose|k: int| 0 <= k < all.len() && all[k] == order::distinct::<FilePath>(all)[at];
        assert(paths::lines_look(all[k]));
    }
}

/// The conversations of sources are those of their files, in the order of the
/// sources.
proof fn lemma_in_sources(list: Seq<SourceView>, disk: DiskView)
    ensures
        forall|i: int|
            0 <= i < miniharness::in_sources(list, disk).len() ==> order::taken::<
                DiscoveredSourceFile,
            >(list, (#[trigger] miniharness::in_sources(list, disk)[i]).source_path),
        forall|k: int|
            0 <= k < list.len() && miniharness::file_conversation(
                (#[trigger] list[k]).source_path,
                disk,
            ) is Some ==> miniharness::in_sources(list, disk).contains(
                miniharness::file_conversation(list[k].source_path, disk)->Some_0,
            ),
    decreases list.len(),
{
    if list.len() > 0 {
        let earlier = list.drop_last();
        let before = miniharness::in_sources(earlier, disk);
        let out = miniharness::in_sources(list, disk);
        lemma_in_sources(earlier, disk);
        assert forall|i: int| 0 <= i < out.len() implies order::taken::<DiscoveredSourceFile>(
            list,
            (#[trigger] out[i]).source_path,
        ) by {
            if i < before.len() {
                assert(out[i] == before[i]);
                let path = before[i].source_path;
                assert(order::taken::<DiscoveredSourceFile>(earlier, path));
                let k = choose|k: int|
                    0 <= k < earlier.len() && #[trigger] DiscoveredSourceFile::place(earlier[k])
                        == path;
                assert(DiscoveredSourceFile::place(list[k]) == path);
            } else {
                assert(DiscoveredSourceFile::place(list[list.len() - 1]) == out[i].source_path);
            }
        }
        assert forall|k: int|
            0 <= k < list.len() && miniharness::file_conversation(
                (#[trigger] list[k]).source_path,
                disk,
            ) is Some implies out.contains(
            miniharness::file_conversation(list[k].source_path, disk)->Some_0,
        ) by {
            let found = miniharness::file_conversation(list[k].source_path, disk)->Some_0;
            if k < earlier.len() {
                assert(earlier[k] == list[k]);
                let n = choose|n: int| 0 <= n < before.len() && before[n] == found;
                assert(out[n] == found);
            } else {
                assert(out[out.len() - 1] == found);
            }
        }
    }
}

/// Whatever a scan finds is at a discovered source, and whatever a discovered
/// source holds is found.
pub proof fn law_discovery_and_scan_agree(
    context: ContextView,
    given: Option<Seq<char>>,
    user: UserView,
    disk: DiskView,
)
    ensures
        forall|i: int|
            0 <= i < miniharness::scanned(context, given, user, disk).len() ==> order::taken::<
                DiscoveredSourceFile,
            >(
                miniharness::sources(context, given, user, disk),
                (#[trigger] miniharness::scanned(context, given, user, disk)[i]).source_path,
            ),
        forall|k: int|
            0 <= k < miniharness::sources(context, given, user, disk).len()
                && miniharness::file_conversation(
                (#[trigger] miniharness::sources(context, given, user, disk)[k]).source_path,
                disk,
            ) is Some ==> miniharness::scanned(context, given, user, disk).contains(
                miniharness::file_conversation(
                    miniharness::sources(context, given, user, disk)[k].source_path,
                    disk,
                )->Some_0,
            ),
{
    lemma_in_sources(miniharness::sources(context, given, user, disk), disk);
}

proof fn lemma_sources_fresh(list: Seq<RootView>, since: Option<i64>, disk: DiskView)
    ensures
        forall|i: int|
            0 <= i < miniharness::roots_sources(list, since, disk).len() ==> disk.fresh(
                (#[trigger] miniharness::roots_sources(list, since, disk)[i]).source_path,
                since,
            ),
    decreases list.len(),
{
    if list.len() > 0 {
        let root = list.last();
        let files = miniharness::root_files(root.path, disk);
        let role = DiscoveredSourceRole::PrimarySessionLog;
        let before = miniharness::roots_sources(list.drop_last(), since, disk);
        let more = scan::fresh_sources("miniharness"@, root, files, role, since, disk);
        let out = miniharness::roots_sources(list, since, disk);
        lemma_sources_fresh(list.drop_last(), since, disk);
        scan::lemma_fresh_sources("miniharness"@, root, files, role, since, disk);
        assert forall|i: int| 0 <= i < out.len() implies disk.fresh(
            (#[trigger] out[i]).source_path,
            since,
        ) by {
            if i < before.len() {
                assert(out[i] == before[i]);
            } else {
                assert(out[i] == more[i - before.len()]);
            }
        }
    }
}

/// Every source changed since the time given, and no two are one file.
pub proof fn law_sources_are_fresh_and_distinct(
    context: ContextView,
    given: Option<Seq<char>>,
    user: UserView,
    disk: DiskView,
    i: int,
    j: int,
)
    requires
        0 <= i < j < miniharness::sources(context, given, user, disk).len(),
    ensures
        disk.fresh(miniharness::sources(context, given, user, disk)[i].source_path, context.since_ts),
        disk.fresh(miniharness::sources(context, given, user, disk)[j].source_path, context.since_ts),
        miniharness::sources(context, given, user, disk)[i].source_path != miniharness::sources(
            context, given, user, disk,
        )[j].source_path,
{
    let found = miniharness::roots_sources(
        miniharness::roots_to_scan(context, given, user, disk),
        context.since_ts,
        disk,
    );
    let out = miniharness::sources(context, given, user, disk);
    lemma_sources_fresh(miniharness::roots_to_scan(context, given, user, disk), context.since_ts, disk);
    order::law_distinct_keeps_each_path_once::<DiscoveredSourceFile>(found);
    assert(found.contains(out[i]) && found.contains(out[j]));
    let a = choose|a: int| 0 <= a < found.len() && found[a] == out[i];
    let b = choose|b: int| 0 <= b < found.len() && found[b] == out[j];
    assert(disk.fresh(found[a].source_path, context.since_ts));
    assert(disk.fresh(found[b].source_path, context.since_ts));
    let first = DiscoveredSourceFile::place(out[i]);
    let second = DiscoveredSourceFile::place(out[j]);
    order::law_paths_are_ordered(first, second, first);
}

} // verus!
