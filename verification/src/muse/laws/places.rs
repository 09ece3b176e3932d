//! What holds of the places in which Muse keeps its logs.
use crate::disk::DiskView;
use crate::muse;
use crate::order;
use crate::paths;
use crate::paths::FilePath;
use crate::scan;
use crate::scan::{
    ContextView, DiscoveredSourceFile, DiscoveredSourceRole, RootView, ScanRoot, SourceView, UserView,
};
use crate::types::ConversationView;
use vstd::prelude::*;

verus! {

/// Of some files the session logs are those that are named `session.jsonl`, each
/// as often as it stands there and in order.
pub proof fn law_session_logs_are_known_by_their_name(files: Seq<Seq<Seq<char>>>)
    ensures
        muse::session_logs(files) == files.filter(
            |path: Seq<Seq<char>>| paths::name_of(path) == Some("session.jsonl"@),
        ),
    decreases files.len(),
{
    reveal(Seq::filter);
    if files.len() > 0 {
        law_session_logs_are_known_by_their_name(files.drop_last());
        let before = muse::session_logs(files.drop_last());
        assert(before + Seq::<Seq<Seq<char>>>::empty() =~= before);
        assert(before + seq![files.last()] =~= before.push(files.last()));
    }
}

/// The files of a root are the session logs that a walk from it meets, in order; a
/// root that does not exist has none.
pub proof fn law_a_root_has_the_logs_below_it(root: Seq<Seq<char>>, disk: DiskView)
    ensures
        !disk.is_file(root) && !disk.is_dir(root) ==> muse::root_files(root, disk).len() == 0,
        disk.is_file(root) || disk.is_dir(root) ==> muse::root_files(root, disk) == order::ordered::<
            FilePath,
        >(
            disk.walked(root).filter(
                |path: Seq<Seq<char>>| paths::name_of(path) == Some("session.jsonl"@),
            ),
        ),
{
    law_session_logs_are_known_by_their_name(disk.walked(root));
}

/// The default session directory below the user's own.
pub open spec fn default_place(home: Seq<Seq<char>>) -> Seq<Seq<char>> {
    paths::under(home, ".local/share/muse/sessions"@)
}

/// A given session log stands for the directory that holds it.
pub proof fn law_a_log_stands_for_its_directory(
    directory: Seq<Seq<char>>,
    disk: DiskView,
)
    requires
        disk.is_file(directory.push("session.jsonl"@)),
    ensures
        muse::explicit_roots(directory.push("session.jsonl"@), disk) == seq![directory],
        muse::roots_of(directory.push("session.jsonl"@), disk) == seq![directory],
{
    reveal_strlit("session.jsonl");
    reveal_strlit(".");
    reveal_strlit("..");
    assert("session.jsonl"@.len() == 13);
    assert(!"session.jsonl"@.contains('/'));
    paths::laws::law_a_step_down_is_undone(directory, "session.jsonl"@);
}

/// A given place that is no session log stands for itself where it is the
/// `sessions` directory of `muse`, for the `sessions` below it where it is named
/// `muse`, and for the default directory below it where that exists; in this order.
/// Where it stands for nothing, it stands for itself if a session log is below it.
pub proof fn law_a_place_stands_for_its_session_directories(base: Seq<Seq<char>>, disk: DiskView)
    requires
        !(disk.is_file(base) && paths::name_of(base) == Some("session.jsonl"@)),
    ensures
        ({
            let known = (if paths::name_of(base) == Some("sessions"@) && paths::name_in(
                paths::parent_of(base),
            ) == Some("muse"@) {
                seq![base]
            } else {
                Seq::empty()
            }) + (if paths::name_of(base) == Some("muse"@) {
                seq![paths::under(base, "sessions"@)]
            } else {
                Seq::empty()
            }) + (if disk.is_file(default_place(base)) || disk.is_dir(default_place(base)) {
                seq![default_place(base)]
            } else {
                Seq::empty()
            });
            &&& muse::explicit_roots(base, disk) == known
            &&& known.len() > 0 ==> muse::roots_of(base, disk) == known
            &&& known.len() == 0 && muse::root_files(base, disk).len() > 0 ==> muse::roots_of(
                base,
                disk,
            ) == seq![base]
            &&& known.len() == 0 && muse::root_files(base, disk).len() == 0 ==> muse::roots_of(
                base,
                disk,
            ).len() == 0
        }),
{
}

/// The roots of some given places are those that each stands for, in order and on
/// its machine.
pub proof fn law_given_places_are_taken_one_by_one(
    list: Seq<RootView>,
    next: RootView,
    disk: DiskView,
)
    ensures
        muse::given_roots(Seq::empty(), disk).len() == 0,
        muse::given_roots(list.push(next), disk) == muse::given_roots(list, disk) + muse::roots_of(
            next.path,
            disk,
        ).map_values(|path: Seq<Seq<char>>| RootView { path, origin: next.origin }),
{
    assert(list.push(next).drop_last() =~= list);
    assert(list.push(next).last() == next);
    assert(scan::roots_at(muse::roots_of(next.path, disk), next.origin) =~= muse::roots_of(
        next.path,
        disk,
    ).map_values(|path: Seq<Seq<char>>| RootView { path, origin: next.origin }));
}

/// With places given, the roots are those that they and the data directory stand
/// for. Without, they are those of the data directory, which may also be a session
/// directory by its name alone, and only where there are none the default directory
/// of the user, if it exists. Each is taken once and in order.
pub proof fn law_the_roots_of_a_scan(context: ContextView, user: UserView, disk: DiskView)
    ensures
        ({
            let data = muse::roots_of(context.data_dir, disk);
            let named = muse::explicit_roots(context.data_dir, disk).len() == 0 && (disk.is_file(
                context.data_dir,
            ) || disk.is_dir(context.data_dir)) && paths::name_of(context.data_dir) == Some(
                "sessions"@,
            );
            let known = if named {
                seq![context.data_dir]
            } else if data.len() > 0 {
                data
            } else {
                match user.home {
                    Some(home) => if disk.is_file(default_place(home)) || disk.is_dir(
                        default_place(home),
                    ) {
                        seq![default_place(home)]
                    } else {
                        Seq::empty()
                    },
                    None => Seq::empty(),
                }
            };
            let local = |path: Seq<Seq<char>>| RootView { path, origin: "local"@ };
            &&& context.scan_roots.len() == 0 ==> muse::roots_to_scan(context, user, disk)
                == order::distinct::<ScanRoot>(known.map_values(local))
            &&& context.scan_roots.len() > 0 ==> muse::roots_to_scan(context, user, disk)
                == order::distinct::<ScanRoot>(
                muse::given_roots(context.scan_roots, disk) + data.map_values(local),
            )
        }),
        user.home matches Some(home) ==> muse::sessions_place(user) == Some(default_place(home)),
        user.home is None ==> muse::sessions_place(user) is None,
{
    let data = muse::roots_of(context.data_dir, disk);
    let own = muse::data_roots(context.data_dir, disk);
    let local = |path: Seq<Seq<char>>| RootView { path, origin: "local"@ };
    assert(scan::roots_at(data, "local"@) =~= data.map_values(local));
    assert(scan::roots_at(own, "local"@) =~= own.map_values(local));
    let rest = muse::default_root(user, disk);
    assert(scan::roots_at(rest, "local"@) =~= rest.map_values(local));
}

/// The sources are those of the roots, one root after the other: its session logs
/// that were not changed too long ago.
pub proof fn law_roots_are_taken_one_by_one(
    list: Seq<RootView>,
    next: RootView,
    since: Option<i64>,
    disk: DiskView,
)
    ensures
        muse::roots_sources(Seq::empty(), since, disk).len() == 0,
        muse::roots_sources(list.push(next), since, disk) == muse::roots_sources(list, since, disk)
            + scan::fresh_sources(
            "muse"@,
            next,
            muse::root_files(next.path, disk),
            DiscoveredSourceRole::PrimarySessionLog,
            since,
            disk,
        ),
{
    assert(list.push(next).drop_last() =~= list);
    assert(list.push(next).last() == next);
}

/// The conversations of a scan are those of its sources, one after the other; a
/// source without one is passed over.
pub proof fn law_sources_are_read_one_by_one(
    list: Seq<SourceView>,
    next: SourceView,
    disk: DiskView,
)
    ensures
        muse::in_sources(Seq::empty(), disk).len() == 0,
        muse::in_sources(list.push(next), disk) == muse::in_sources(list, disk) + (
        match muse::file_conversation(next.source_path, disk) {
            Some(found) => seq![found],
            None => Seq::<ConversationView>::empty(),
        }),
{
    assert(list.push(next).drop_last() =~= list);
    assert(list.push(next).last() == next);
    let before = muse::in_sources(list, disk);
    if let Some(found) = muse::file_conversation(next.source_path, disk) {
        assert(before.push(found) =~= before + seq![found]);
    }
}

/// A scan reads the sources of the roots, each path once and in the order of the roots, as far
/// as they were not changed too long ago.
pub proof fn law_a_scan_reads_the_sources_of_its_roots(
    context: ContextView,
    user: UserView,
    disk: DiskView,
)
    ensures
        muse::sources(context, user, disk) == order::once::<DiscoveredSourceFile>(
            muse::roots_sources(
                muse::roots_to_scan(context, user, disk),
                context.since_ts,
                disk,
            ),
        ),
        muse::scanned(context, user, disk) == muse::in_sources(
            muse::sources(context, user, disk),
            disk,
        ),
{
}

} // verus!
