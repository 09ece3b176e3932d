//! What holds of every scan for Muse's conversations.
use crate::disk::DiskView;
use crate::json::Tree;
use crate::muse;
use crate::order;
use crate::order::Located;
use crate::scan;
use crate::scan::{
    ContextView, DiscoveredSourceFile, DiscoveredSourceRole, RootView, SourceView, UserView,
};
use crate::timeline;
use crate::types;
use vstd::prelude::*;

pub mod logs;
pub mod places;

verus! {

/// No record comes before one with a smaller number.
pub open spec fn ascending(records: Seq<Tree>) -> bool {
    forall|i: int, j: int|
        0 <= i < j < records.len() ==> muse::sequence_of(#[trigger] records[i])
            <= muse::sequence_of(#[trigger] records[j])
}

/// Those of some records that carry a number.
pub open spec fn numbered_as(records: Seq<Tree>, number: int) -> Seq<Tree>
    decreases records.len(),
{
    if records.len() == 0 {
        Seq::empty()
    } else {
        let before = numbered_as(records.drop_last(), number);
        if muse::sequence_of(records.last()) == number {
            before.push(records.last())
        } else {
            before
        }
    }
}

proof fn lemma_placed_members(list: Seq<Tree>, record: Tree)
    ensures
        muse::placed(list, record).len() == list.len() + 1,
        muse::placed(list, record).to_multiset() == list.to_multiset().insert(record),
        forall|i: int|
            0 <= i < list.len() + 1 ==> #[trigger] muse::placed(list, record)[i] == record
                || list.contains(muse::placed(list, record)[i]),
    decreases list.len(),
{
    broadcast use vstd::seq_lib::group_to_multiset_ensures;

    let out = muse::placed(list, record);
    if list.len() > 0 && muse::sequence_of(record) < muse::sequence_of(list.last()) {
        let before = list.drop_last();
        let inner = muse::placed(before, record);
        lemma_placed_members(before, record);
        assert(list =~= before.push(list.last()));
        assert(out.to_multiset() =~= list.to_multiset().insert(record));
        assert forall|i: int| 0 <= i < list.len() + 1 implies #[trigger] out[i] == record
            || list.contains(out[i]) by {
            if i < inner.len() {
                assert(out[i] == inner[i]);
                if inner[i] != record {
                    let k = choose|k: int| 0 <= k < before.len() && before[k] == inner[i];
                    assert(list[k] == out[i]);
                }
            } else {
                assert(list[list.len() - 1] == out[i]);
            }
        }
    } else {
        assert forall|i: int| 0 <= i < list.len() + 1 implies #[trigger] out[i] == record
            || list.contains(out[i]) by {
            if i < list.len() {
                assert(list[i] == out[i]);
            }
        }
    }
}

proof fn lemma_placed_ascending(list: Seq<Tree>, record: Tree)
    requires
        ascending(list),
    ensures
        ascending(muse::placed(list, record)),
    decreases list.len(),
{
    let out = muse::placed(list, record);
    if list.len() > 0 && muse::sequence_of(record) < muse::sequence_of(list.last()) {
        let before = list.drop_last();
        let inner = muse::placed(before, record);
        assert(ascending(before)) by {
            assert forall|i: int, j: int| 0 <= i < j < before.len() implies muse::sequence_of(
                #[trigger] before[i],
            ) <= muse::sequence_of(#[trigger] before[j]) by {
                assert(before[i] == list[i] && before[j] == list[j]);
            }
        }
        lemma_placed_ascending(before, record);
        lemma_placed_members(before, record);
        assert forall|i: int| 0 <= i < inner.len() implies muse::sequence_of(#[trigger] inner[i])
            <= muse::sequence_of(list.last()) by {
            if inner[i] != record {
                let k = choose|k: int| 0 <= k < before.len() && before[k] == inner[i];
                assert(muse::sequence_of(list[k]) <= muse::sequence_of(list[list.len() - 1]));
            }
        }
        assert forall|i: int, j: int| 0 <= i < j < out.len() implies muse::sequence_of(
            #[trigger] out[i],
        ) <= muse::sequence_of(#[trigger] out[j]) by {
            assert(out[i] == inner[i]);
            if j < inner.len() {
                assert(out[j] == inner[j]);
            }
        }
    } else {
        assert forall|i: int, j: int| 0 <= i < j < out.len() implies muse::sequence_of(
            #[trigger] out[i],
        ) <= muse::sequence_of(#[trigger] out[j]) by {
            assert(out[i] == list[i]);
            if j < list.len() {
                assert(out[j] == list[j]);
            } else {
                assert(muse::sequence_of(list[i]) <= muse::sequence_of(list[list.len() - 1]));
            }
        }
    }
}

proof fn lemma_placed_stable(list: Seq<Tree>, record: Tree, number: int)
    ensures
        numbered_as(muse::placed(list, record), number) == if muse::sequence_of(record) == number {
            numbered_as(list, number).push(record)
        } else {
            numbered_as(list, number)
        },
    decreases list.len(),
{
    let out = muse::placed(list, record);
    if list.len() > 0 && muse::sequence_of(record) < muse::sequence_of(list.last()) {
        let before = list.drop_last();
        lemma_placed_stable(before, record, number);
        assert(out.drop_last() =~= muse::placed(before, record));
        assert(out.last() == list.last());
    } else {
        assert(out.drop_last() =~= list);
    }
}

/// The records of a log are taken in the order of their numbers, none is lost or
/// doubled, and those with one number keep the order of their lines.
pub proof fn law_sequence_decides_the_order(records: Seq<Tree>, number: int)
    ensures
        ascending(muse::in_sequence(records)),
        muse::in_sequence(records).to_multiset() == records.to_multiset(),
        numbered_as(muse::in_sequence(records), number) == numbered_as(records, number),
    decreases records.len(),
{
    broadcast use vstd::seq_lib::group_to_multiset_ensures;

    if records.len() == 0 {
        assert(muse::in_sequence(records) =~= records);
    } else {
        let before = records.drop_last();
        law_sequence_decides_the_order(before, number);
        lemma_placed_ascending(muse::in_sequence(before), records.last());
        lemma_placed_members(muse::in_sequence(before), records.last());
        lemma_placed_stable(muse::in_sequence(before), records.last(), number);
        assert(records =~= before.push(records.last()));
    }
}

/// Every message stems from a record, in the order of the records.
proof fn lemma_messages_stem(records: Seq<Tree>, bound: int)
    requires
        ascending(records),
        forall|i: int|
            0 <= i < records.len() ==> muse::sequence_of(#[trigger] records[i]) <= bound,
    ensures
        forall|i: int|
            0 <= i < muse::records_messages(records).len() ==> muse::sequence_of(
                (#[trigger] muse::records_messages(records)[i]).extra,
            ) <= bound,
        forall|i: int, j: int|
            0 <= i < j < muse::records_messages(records).len() ==> muse::sequence_of(
                (#[trigger] muse::records_messages(records)[i]).extra,
            ) <= muse::sequence_of((#[trigger] muse::records_messages(records)[j]).extra),
    decreases records.len(),
{
    if records.len() > 0 {
        let before = records.drop_last();
        let last = records.last();
        assert(records[records.len() - 1] == last);
        assert(ascending(before)) by {
            assert forall|i: int, j: int| 0 <= i < j < before.len() implies muse::sequence_of(
                #[trigger] before[i],
            ) <= muse::sequence_of(#[trigger] before[j]) by {
                assert(before[i] == records[i] && before[j] == records[j]);
            }
        }
        assert forall|i: int| 0 <= i < before.len() implies muse::sequence_of(#[trigger] before[i])
            <= muse::sequence_of(last) by {
            assert(muse::sequence_of(records[i]) <= muse::sequence_of(records[records.len() - 1]));
        }
        lemma_messages_stem(before, muse::sequence_of(last));
        let out = muse::records_messages(records);
        let earlier = muse::records_messages(before);
        assert forall|i: int| 0 <= i < out.len() implies muse::sequence_of((#[trigger] out[i]).extra)
            <= bound by {
            if i < earlier.len() {
                assert(out[i] == earlier[i]);
            }
        }
        assert forall|i: int, j: int| 0 <= i < j < out.len() implies muse::sequence_of(
            (#[trigger] out[i]).extra,
        ) <= muse::sequence_of((#[trigger] out[j]).extra) by {
            assert(out[i] == earlier[i]);
            if j < earlier.len() {
                assert(out[j] == earlier[j]);
            }
        }
    }
}

/// The messages of a log stand in the order of the numbers of their records,
/// whatever the order of the lines.
pub proof fn law_messages_follow_the_sequence(
    bytes: Seq<u8>,
    path: Seq<Seq<char>>,
    i: int,
    j: int,
)
    requires
        muse::log_conversation(bytes, path) is Some,
        0 <= i < j < muse::log_conversation(bytes, path)->Some_0.messages.len(),
    ensures
        muse::sequence_of(muse::log_conversation(bytes, path)->Some_0.messages[i].extra)
            <= muse::sequence_of(muse::log_conversation(bytes, path)->Some_0.messages[j].extra),
{
    let records = muse::in_sequence(muse::log_records(bytes));
    law_sequence_decides_the_order(muse::log_records(bytes), 0);
    assert forall|k: int| 0 <= k < records.len() implies muse::sequence_of(#[trigger] records[k])
        <= i64::MAX by {
    }
    lemma_messages_stem(records, i64::MAX as int);
    let drafts = muse::records_messages(records);
    assert(types::numbered(drafts)[i].extra == drafts[i].extra);
    assert(types::numbered(drafts)[j].extra == drafts[j].extra);
}

/// A conversation has a message, its messages carry their places, and it does
/// not start after it ends.
pub proof fn law_conversations_are_well_made(records: Seq<Tree>, path: Seq<Seq<char>>, at: int)
    requires
        muse::sequence_conversation(records, path) is Some,
        0 <= at < muse::sequence_conversation(records, path)->Some_0.messages.len(),
    ensures
        muse::sequence_conversation(records, path)->Some_0.messages[at].idx == types::number(at),
        muse::sequence_conversation(records, path)->Some_0.source_path == path,
        match (
            muse::sequence_conversation(records, path)->Some_0.started_at,
            muse::sequence_conversation(records, path)->Some_0.ended_at,
        ) {
            (Some(first), Some(last)) => first <= last,
            (None, None) => true,
            _ => false,
        },
{
    timeline::law_bounds_enclose(muse::records_stamps(records));
}

/// Only the four kinds of run events that carry conversation are messages.
pub proof fn law_telemetry_is_no_message(record: Tree)
    requires
        muse::record_message(record) is Some,
    ensures
        muse::event_of(record) matches Some(event) && (event.text_at("kind"@) == Some("started"@)
            || event.text_at("kind"@) == Some("assistant_message_committed"@) || event.text_at(
            "kind"@,
        ) == Some("assistant_tool_calls_committed"@) || event.text_at("kind"@) == Some(
            "tool_result_batch_committed"@,
        )),
        muse::record_message(record)->Some_0.extra == record,
{
}

/// A nested agent has the log of a session to look its workspace up in, and no
/// other log has.
pub proof fn law_nested_agents_have_a_parent(path: Seq<Seq<char>>)
    ensures
        muse::nested(path) <==> muse::parent_log(path) is Some,
{
}

/// A workspace that a log names itself is kept; one that it does not name is
/// that of the session that it is nested in.
pub proof fn law_nested_agents_inherit_the_workspace(
    path: Seq<Seq<char>>,
    disk: DiskView,
    bytes: Seq<u8>,
    parent: Seq<u8>,
)
    requires
        disk.bytes(path) == Some(bytes),
        muse::log_conversation(bytes, path) is Some,
        muse::nested(path),
        disk.bytes(muse::parent_log(path)->Some_0) == Some(parent),
    ensures
        muse::file_conversation(path, disk) is Some,
        muse::file_conversation(path, disk)->Some_0.workspace == match muse::log_conversation(
            bytes,
            path,
        )->Some_0.workspace {
            Some(own) => Some(own),
            None => muse::log_workspace(parent),
        },
{
    law_nested_agents_have_a_parent(path);
}

/// The conversations of sources are those of their files, in the order of the
/// sources.
proof fn lemma_in_sources(list: Seq<SourceView>, disk: DiskView)
    ensures
        forall|i: int|
            0 <= i < muse::in_sources(list, disk).len() ==> order::taken::<DiscoveredSourceFile>(
                list,
                (#[trigger] muse::in_sources(list, disk)[i]).source_path,
            ),
        forall|k: int|
            0 <= k < list.len() && muse::file_conversation(
                (#[trigger] list[k]).source_path,
                disk,
            ) is Some ==> muse::in_sources(list, disk).contains(
                muse::file_conversation(list[k].source_path, disk)->Some_0,
            ),
    decreases list.len(),
{
    if list.len() > 0 {
        let earlier = list.drop_last();
        let before = muse::in_sources(earlier, disk);
        let out = muse::in_sources(list, disk);
        lemma_in_sources(earlier, disk);
        assert forall|i: int| 0 <= i < out.len() implies order::taken::<DiscoveredSourceFile>(
            list,
            (#[trigger] out[i]).source_path,
        ) by {
            if i < before.len() {
                assert(out[i] == before[i]);
                let path = before[i].source_path;
                assert(order::taken::<DiscoveredSourceFile>(earlier, path));
                let k = choose|k: int|
                    0 <= k < earlier.len() && #[trigger] DiscoveredSourceFile::place(earlier[k])
                        == path;
                assert(DiscoveredSourceFile::place(list[k]) == path);
            } else {
                assert(DiscoveredSourceFile::place(list[list.len() - 1]) == out[i].source_path);
            }
        }
        assert forall|k: int|
            0 <= k < list.len() && muse::file_conversation(
                (#[trigger] list[k]).source_path,
                disk,
            ) is Some implies out.contains(
            muse::file_conversation(list[k].source_path, disk)->Some_0,
        ) by {
            let found = muse::file_conversation(list[k].source_path, disk)->Some_0;
            if k < earlier.len() {
                assert(earlier[k] == list[k]);
                let n = choose|n: int| 0 <= n < before.len() && before[n] == found;
                assert(out[n] == found);
            } else {
                assert(out[out.len() - 1] == found);
            }
        }
    }
}

/// Whatever a scan finds is at a discovered source, and whatever a discovered
/// source holds is found.
pub proof fn law_discovery_and_scan_agree(context: ContextView, user: UserView, disk: DiskView)
    ensures
        forall|i: int|
            0 <= i < muse::scanned(context, user, disk).len() ==> order::taken::<
                DiscoveredSourceFile,
            >(
                muse::sources(context, user, disk),
                (#[trigger] muse::scanned(context, user, disk)[i]).source_path,
            ),
        forall|k: int|
            0 <= k < muse::sources(context, user, disk).len() && muse::file_conversation(
                (#[trigger] muse::sources(context, user, disk)[k]).source_path,
                disk,
            ) is Some ==> muse::scanned(context, user, disk).contains(
                muse::file_conversation(
                    muse::sources(context, user, disk)[k].source_path,
                    disk,
                )->Some_0,
            ),
{
    lemma_in_sources(muse::sources(context, user, disk), disk);
}

proof fn lemma_sources_fresh(list: Seq<RootView>, since: Option<i64>, disk: DiskView)
    ensures
        forall|i: int|
            0 <= i < muse::roots_sources(list, since, disk).len() ==> disk.fresh(
                (#[trigger] muse::roots_sources(list, since, disk)[i]).source_path,
                since,
            ),
    decreases list.len(),
{
    if list.len() > 0 {
        let root = list.last();
        let files = muse::root_files(root.path, disk);
        let role = DiscoveredSourceRole::PrimarySessionLog;
        let before = muse::roots_sources(list.drop_last(), since, disk);
        let more = scan::fresh_sources("muse"@, root, files, role, since, disk);
        let out = muse::roots_sources(list, since, disk);
        lemma_sources_fresh(list.drop_last(), since, disk);
        scan::lemma_fresh_sources("muse"@, root, files, role, since, disk);
        assert forall|i: int| 0 <= i < out.len() implies disk.fresh(
            (#[trigger] out[i]).source_path,
            since,
        ) by {
            if i < before.len() {
                assert(out[i] == before[i]);
            } else {
                assert(out[i] == more[i - before.len()]);
            }
        }
    }
}

/// Every source changed since the time given, and no two are one file.
pub proof fn law_sources_are_fresh_and_distinct(
    context: ContextView,
    user: UserView,
    disk: DiskView,
    i: int,
    j: int,
)
    requires
        0 <= i < j < muse::sources(context, user, disk).len(),
    ensures
        disk.fresh(muse::sources(context, user, disk)[i].source_path, context.since_ts),
        disk.fresh(muse::sources(context, user, disk)[j].source_path, context.since_ts),
        muse::sources(context, user, disk)[i].source_path != muse::sources(
            context, user, disk,
        )[j].source_path,
{
    let found = muse::roots_sources(
        muse::roots_to_scan(context, user, disk),
        context.since_ts,
        disk,
    );
    let out = muse::sources(context, user, disk);
    lemma_sources_fresh(muse::roots_to_scan(context, user, disk), context.since_ts, disk);
    order::law_once_keeps_each_path::<DiscoveredSourceFile>(found);
    assert(found.contains(out[i]) && found.contains(out[j]));
    let a = choose|a: int| 0 <= a < found.len() && found[a] == out[i];
    let b = choose|b: int| 0 <= b < found.len() && found[b] == out[j];
    assert(disk.fresh(found[a].source_path, context.since_ts));
    assert(disk.fresh(found[b].source_path, context.since_ts));
    let first = DiscoveredSourceFile::place(out[i]);
    let second = DiscoveredSourceFile::place(out[j]);
    order::law_paths_are_ordered(first, second, first);
}

} // verus!
