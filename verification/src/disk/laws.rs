//! What holds of every look at a file system.
use crate::disk;
use crate::disk::{DiskView, FileView, WalkView};
use vstd::prelude::*;
use vstd::utf8::*;

verus! {

proof fn lemma_file_in(files: Seq<FileView>, at: int)
    requires
        0 <= at < files.len(),
        forall|j: int| 0 <= j < at ==> (#[trigger] files[j]).path != files[at].path,
    ensures
        disk::file_in(files, files[at].path) == Some(files[at]),
    decreases files.len(),
{
    if at > 0 {
        let rest = files.skip(1);
        assert(files[0].path != files[at].path);
        assert forall|j: int| 0 <= j < at - 1 implies (#[trigger] rest[j]).path != rest[at
            - 1].path by {
            assert(rest[j] == files[j + 1]);
        }
        lemma_file_in(rest, at - 1);
        assert(rest[at - 1] == files[at]);
    }
}

proof fn lemma_no_file(files: Seq<FileView>, path: Seq<Seq<char>>)
    requires
        forall|j: int| 0 <= j < files.len() ==> (#[trigger] files[j]).path != path,
    ensures
        disk::file_in(files, path) is None,
    decreases files.len(),
{
    if files.len() > 0 {
        let rest = files.skip(1);
        assert(files[0].path != path);
        assert forall|j: int| 0 <= j < rest.len() implies (#[trigger] rest[j]).path != path by {
            assert(rest[j] == files[j + 1]);
        }
        lemma_no_file(rest, path);
    }
}

/// What is known of a path is what the first file at it says: its bytes, its rows
/// and its time of change. Its text is what the bytes encode, if they do.
pub proof fn law_a_file_says_what_it_holds(disk: DiskView, at: int)
    requires
        0 <= at < disk.files.len(),
        forall|j: int| 0 <= j < at ==> (#[trigger] disk.files[j]).path != disk.files[at].path,
    ensures
        disk.is_file(disk.files[at].path),
        disk.present(disk.files[at].path),
        disk.is_dir(disk.files[at].path) <==> disk.dirs.contains(disk.files[at].path),
        disk.bytes(disk.files[at].path) == disk.files[at].bytes,
        disk.rows(disk.files[at].path) == disk.files[at].rows,
        disk.modified(disk.files[at].path) == disk.files[at].modified,
        disk.text(disk.files[at].path) == match disk.files[at].bytes {
            Some(bytes) => if valid_utf8(bytes) {
                Some(decode_utf8(bytes))
            } else {
                None
            },
            None => None,
        },
{
    lemma_file_in(disk.files, at);
}

/// A path at which no file was met is none and says nothing; it exists just when
/// it was met as something else.
pub proof fn law_what_was_not_met_says_nothing(disk: DiskView, path: Seq<Seq<char>>)
    requires
        forall|j: int| 0 <= j < disk.files.len() ==> (#[trigger] disk.files[j]).path != path,
    ensures
        !disk.is_file(path),
        disk.bytes(path) is None,
        disk.text(path) is None,
        disk.rows(path) is None,
        disk.modified(path) is None,
        disk.present(path) <==> disk.dirs.contains(path),
        disk.is_dir(path) <==> disk.dirs.contains(path),
{
    lemma_no_file(disk.files, path);
}

/// A file is left out only where it is known to have changed before the time
/// given.
pub proof fn law_only_old_files_are_left_out(disk: DiskView, path: Seq<Seq<char>>, since: Option<i64>)
    ensures
        disk.fresh(path, since) <==> !(disk.modified(path) is Some && since is Some
            && disk.modified(path)->Some_0 < since->Some_0),
{
}

/// The files below a root are those of the first walk from it, and a root from
/// which there was none has no files.
pub proof fn law_a_walk_tells_the_files(walks: Seq<WalkView>, at: int)
    requires
        0 <= at < walks.len(),
        forall|j: int| 0 <= j < at ==> (#[trigger] walks[j]).root != walks[at].root,
    ensures
        disk::walk_in(walks, walks[at].root) == walks[at].files,
        disk::walk_in(Seq::empty(), walks[at].root).len() == 0,
        forall|files: Seq<FileView>, dirs: Seq<Seq<Seq<char>>>| #[trigger]
            (DiskView { files, dirs, walks }).walked(walks[at].root) == walks[at].files,
    decreases walks.len(),
{
    if at > 0 {
        let rest = walks.skip(1);
        assert(walks[0].root != walks[at].root);
        assert forall|j: int| 0 <= j < at - 1 implies (#[trigger] rest[j]).root != rest[at
            - 1].root by {
            assert(rest[j] == walks[j + 1]);
        }
        law_a_walk_tells_the_files(rest, at - 1);
        assert(rest[at - 1] == walks[at]);
    }
}

/// Of some places those that exist are found, each as often as it stands there
/// and in order.
pub proof fn law_existing_places_are_found(list: Seq<Seq<Seq<char>>>, disk: DiskView)
    ensures
        disk::present_ones(list, disk) == list.filter(
            |path: Seq<Seq<char>>| disk.is_file(path) || disk.dirs.contains(path),
        ),
    decreases list.len(),
{
    reveal(Seq::filter);
    if list.len() > 0 {
        law_existing_places_are_found(list.drop_last(), disk);
        let before = disk::present_ones(list.drop_last(), disk);
        assert(before + Seq::<Seq<Seq<char>>>::empty() =~= before);
        assert(before + seq![list.last()] =~= before.push(list.last()));
    }
}

} // verus!
