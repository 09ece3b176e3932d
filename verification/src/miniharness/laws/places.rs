//! What holds of the places in which Miniharness keeps its logs.
use crate::disk::DiskView;
use crate::miniharness;
use crate::order;
use crate::paths;
use crate::paths::FilePath;
use crate::scan;
use crate::scan::{
    ContextView, DiscoveredSourceFile, DiscoveredSourceRole, RootView, ScanRoot, SourceView, UserView,
};
use crate::text;
use crate::text::laws;
use crate::types::ConversationView;
use vstd::prelude::*;

verus! {

/// The session directory is the one given, without the white space around it,
/// unless nothing is left, or else the default one below the user's own.
pub proof fn law_the_session_directory(given: Option<Seq<char>>, user: UserView)
    ensures
        given matches Some(value) && !laws::all_white(value) ==> miniharness::sessions_place(
            given,
            user,
        ) == Some(paths::path_parts(text::trimmed(given->Some_0))),
        given is None || laws::all_white(given->Some_0) ==> miniharness::sessions_place(given, user)
            == match user.home {
            Some(home) => Some(paths::under(home, ".local/share/miniharness/sessions"@)),
            None => None,
        },
{
    if let Some(value) = given {
        laws::law_blank_texts_are_white_space(value);
    }
}

/// Of some files the session logs are those with the extension of a log of lines,
/// each as often as it stands there and in order.
pub proof fn law_session_logs_are_known_by_their_extension(files: Seq<Seq<Seq<char>>>)
    ensures
        miniharness::line_logs(files) == files.filter(
            |path: Seq<Seq<char>>| paths::lines_look(path),
        ),
    decreases files.len(),
{
    reveal(Seq::filter);
    if files.len() > 0 {
        law_session_logs_are_known_by_their_extension(files.drop_last());
        let before = miniharness::line_logs(files.drop_last());
        assert(before + Seq::<Seq<Seq<char>>>::empty() =~= before);
        assert(before + seq![files.last()] =~= before.push(files.last()));
    }
}

/// The files of a root are itself where it is a session log, and the session logs
/// that a walk from it meets where it is a directory, each once and in order.
pub proof fn law_a_root_has_the_logs_below_it(root: Seq<Seq<char>>, disk: DiskView)
    ensures
        disk.is_file(root) && paths::lines_look(root) ==> miniharness::root_files(root, disk)
            == seq![root],
        disk.is_file(root) && !paths::lines_look(root) ==> miniharness::root_files(
            root,
            disk,
        ).len() == 0,
        !disk.is_file(root) && disk.is_dir(root) ==> miniharness::root_files(root, disk)
            == order::distinct::<FilePath>(
            disk.walked(root).filter(|path: Seq<Seq<char>>| paths::lines_look(path)),
        ),
        !disk.is_file(root) && !disk.is_dir(root) ==> miniharness::root_files(root, disk).len()
            == 0,
{
    law_session_logs_are_known_by_their_extension(disk.walked(root));
}

/// The roots are the places given, each once and in order. Without any, the root
/// is the data directory where it holds a session log, and else the session
/// directory.
pub proof fn law_the_roots_of_a_scan(
    context: ContextView,
    given: Option<Seq<char>>,
    user: UserView,
    disk: DiskView,
)
    ensures
        context.scan_roots.len() > 0 ==> miniharness::roots_to_scan(context, given, user, disk)
            == order::distinct::<ScanRoot>(context.scan_roots),
        context.scan_roots.len() == 0 ==> miniharness::roots_to_scan(context, given, user, disk)
            == order::distinct::<ScanRoot>(
            if miniharness::root_files(context.data_dir, disk).len() > 0 {
                seq![RootView { path: context.data_dir, origin: "local"@ }]
            } else {
                match miniharness::sessions_place(given, user) {
                    Some(place) => seq![RootView { path: place, origin: "local"@ }],
                    None => Seq::empty(),
                }
            },
        ),
{
}

/// The sources are those of the roots, one root after the other: its session logs
/// that were not changed too long ago; each is taken once and in order.
pub proof fn law_roots_are_taken_one_by_one(
    list: Seq<RootView>,
    next: RootView,
    since: Option<i64>,
    disk: DiskView,
)
    ensures
        miniharness::roots_sources(Seq::empty(), since, disk).len() == 0,
        miniharness::roots_sources(list.push(next), since, disk) == miniharness::roots_sources(
            list,
            since,
            disk,
        ) + scan::fresh_sources(
            "miniharness"@,
            next,
            miniharness::root_files(next.path, disk),
            DiscoveredSourceRole::PrimarySessionLog,
            since,
            disk,
        ),
{
    assert(list.push(next).drop_last() =~= list);
    assert(list.push(next).last() == next);
}

/// The conversations of a scan are those of its sources, one after the other; a
/// source without one is passed over.
pub proof fn law_sources_are_read_one_by_one(
    list: Seq<SourceView>,
    next: SourceView,
    disk: DiskView,
)
    ensures
        miniharness::in_sources(Seq::empty(), disk).len() == 0,
        miniharness::in_sources(list.push(next), disk) == miniharness::in_sources(list, disk) + (
        match miniharness::file_conversation(next.source_path, disk) {
            Some(found) => seq![found],
            None => Seq::<ConversationView>::empty(),
        }),
{
    assert(list.push(next).drop_last() =~= list);
    assert(list.push(next).last() == next);
    let before = miniharness::in_sources(list, disk);
    if let Some(found) = miniharness::file_conversation(next.source_path, disk) {
        assert(before.push(found) =~= before + seq![found]);
    }
}

/// A scan reads the sources of the roots, each path once and in order, as far
/// as they were not changed too long ago.
pub proof fn law_a_scan_reads_the_sources_of_its_roots(
    context: ContextView,
    given: Option<Seq<char>>,
    user: UserView,
    disk: DiskView,
)
    ensures
        miniharness::sources(context, given, user, disk) == order::distinct::<DiscoveredSourceFile>(
            miniharness::roots_sources(
                miniharness::roots_to_scan(context, given, user, disk),
                context.since_ts,
                disk,
            ),
        ),
        miniharness::scanned(context, given, user, disk) == miniharness::in_sources(
            miniharness::sources(context, given, user, disk),
            disk,
        ),
{
}

} // verus!
