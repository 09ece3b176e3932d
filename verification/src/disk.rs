//! What is known of a file system: the files and directories that were looked
//! at, and what was read of them.
use crate::paths;
use crate::paths::FilePath;
use crate::text;
use vstd::prelude::*;
use vstd::utf8::*;

pub mod laws;

verus! {

/// A file. Its time of change, its bytes and, for a database, its rows of chat
/// sessions are absent where they could not be read.
#[derive(Debug)]
pub struct DiskFile {
    pub path: FilePath,
    pub modified: Option<i64>,
    pub bytes: Option<Vec<u8>>,
    pub rows: Option<Vec<String>>,
}

/// The model of a file.
pub struct FileView {
    pub path: Seq<Seq<char>>,
    pub modified: Option<i64>,
    pub bytes: Option<Seq<u8>>,
    pub rows: Option<Seq<Seq<char>>>,
}

impl View for DiskFile {
    type V = FileView;

    open spec fn view(&self) -> FileView {
        FileView {
            path: self.path@,
            modified: self.modified,
            bytes: match self.bytes {
                Some(bytes) => Some(bytes@),
                None => None,
            },
            rows: match self.rows {
                Some(rows) => Some(text::texts(rows@)),
                None => None,
            },
        }
    }
}

/// The regular files met on a walk below a root, links not followed.
#[derive(Debug)]
pub struct Walk {
    pub root: FilePath,
    pub files: Vec<FilePath>,
}

/// The model of a walk.
pub struct WalkView {
    pub root: Seq<Seq<char>>,
    pub files: Seq<Seq<Seq<char>>>,
}

impl View for Walk {
    type V = WalkView;

    open spec fn view(&self) -> WalkView {
        WalkView { root: self.root@, files: paths::views(self.files@) }
    }
}

/// Files, what else exists, and walks.
#[derive(Debug)]
pub struct Disk {
    pub files: Vec<DiskFile>,
    pub dirs: Vec<FilePath>,
    pub walks: Vec<Walk>,
}

/// The model of what is known of a file system.
pub struct DiskView {
    pub files: Seq<FileView>,
    pub dirs: Seq<Seq<Seq<char>>>,
    pub walks: Seq<WalkView>,
}

impl View for Disk {
    type V = DiskView;

    open spec fn view(&self) -> DiskView {
        DiskView {
            files: self.files@.map_values(|file: DiskFile| file@),
            dirs: paths::views(self.dirs@),
            walks: self.walks@.map_values(|walk: Walk| walk@),
        }
    }
}

/// The first file at a path.
pub open spec fn file_in(files: Seq<FileView>, path: Seq<Seq<char>>) -> Option<FileView>
    decreases files.len(),
{
    if files.len() == 0 {
        None
    } else if files[0].path == path {
        Some(files[0])
    } else {
        file_in(files.skip(1), path)
    }
}

/// The files of the first walk from a root.
pub open spec fn walk_in(walks: Seq<WalkView>, root: Seq<Seq<char>>) -> Seq<Seq<Seq<char>>>
    decreases walks.len(),
{
    if walks.len() == 0 {
        Seq::empty()
    } else if walks[0].root == root {
        walks[0].files
    } else {
        walk_in(walks.skip(1), root)
    }
}

/// Whether a file that changed at one time is new since another. Without a
/// time to compare with, it is.
pub open spec fn changed_since(modified: Option<i64>, since: Option<i64>) -> bool {
    match (modified, since) {
        (Some(at), Some(bound)) => at >= bound,
        _ => true,
    }
}

/// The text that bytes encode, if they are valid UTF-8.
pub open spec fn utf8_text(bytes: Seq<u8>) -> Option<Seq<char>> {
    if valid_utf8(bytes) {
        Some(decode_utf8(bytes))
    } else {
        None
    }
}

impl DiskView {
    /// The file at a path.
    pub open spec fn file(self, path: Seq<Seq<char>>) -> Option<FileView> {
        file_in(self.files, path)
    }

    /// Whether a path is a file.
    pub open spec fn is_file(self, path: Seq<Seq<char>>) -> bool {
        self.file(path) is Some
    }

    /// Whether a path exists and is no file.
    pub open spec fn is_dir(self, path: Seq<Seq<char>>) -> bool {
        self.dirs.contains(path)
    }

    /// Whether a path exists.
    pub open spec fn present(self, path: Seq<Seq<char>>) -> bool {
        self.is_file(path) || self.is_dir(path)
    }

    /// The regular files below a root.
    pub open spec fn walked(self, root: Seq<Seq<char>>) -> Seq<Seq<Seq<char>>> {
        walk_in(self.walks, root)
    }

    /// The time at which a file changed.
    pub open spec fn modified(self, path: Seq<Seq<char>>) -> Option<i64> {
        match self.file(path) {
            Some(file) => file.modified,
            None => None,
        }
    }

    /// Whether a file is new since a time.
    pub open spec fn fresh(self, path: Seq<Seq<char>>, since: Option<i64>) -> bool {
        changed_since(self.modified(path), since)
    }

    /// The bytes of a file.
    pub open spec fn bytes(self, path: Seq<Seq<char>>) -> Option<Seq<u8>> {
        match self.file(path) {
            Some(file) => file.bytes,
            None => None,
        }
    }

    /// The text of a file.
    pub open spec fn text(self, path: Seq<Seq<char>>) -> Option<Seq<char>> {
        match self.bytes(path) {
            Some(bytes) => utf8_text(bytes),
            None => None,
        }
    }

    /// The rows of a database.
    pub open spec fn rows(self, path: Seq<Seq<char>>) -> Option<Seq<Seq<char>>> {
        match self.file(path) {
            Some(file) => file.rows,
            None => None,
        }
    }
}

/// Those of some paths that exist.
pub open spec fn present_ones(list: Seq<Seq<Seq<char>>>, disk: DiskView) -> Seq<Seq<Seq<char>>>
    decreases list.len(),
{
    if list.len() == 0 {
        Seq::empty()
    } else {
        present_ones(list.drop_last(), disk) + paths::only_if(disk.present(list.last()), list.last())
    }
}

/// Those that exist are among the paths, they exist, and there is one if any
/// path exists.
pub proof fn lemma_present_ones(list: Seq<Seq<Seq<char>>>, disk: DiskView)
    ensures
        forall|i: int|
            0 <= i < present_ones(list, disk).len() ==> disk.present(
                #[trigger] present_ones(list, disk)[i],
            ) && list.contains(present_ones(list, disk)[i]),
        forall|i: int|
            0 <= i < list.len() && disk.present(#[trigger] list[i]) ==> present_ones(
                list,
                disk,
            ).contains(list[i]),
        present_ones(list, disk).len() > 0 <==> exists|i: int|
            0 <= i < list.len() && disk.present(#[trigger] list[i]),
    decreases list.len(),
{
    let out = present_ones(list, disk);
    if list.len() > 0 {
        let earlier = list.drop_last();
        let before = present_ones(earlier, disk);
        lemma_present_ones(earlier, disk);
        assert forall|i: int| 0 <= i < out.len() implies disk.present(#[trigger] out[i])
            && list.contains(out[i]) by {
            if i < before.len() {
                assert(out[i] == before[i]);
                let k = choose|k: int| 0 <= k < earlier.len() && earlier[k] == before[i];
                assert(list[k] == out[i]);
            } else {
                assert(list[list.len() - 1] == out[i]);
            }
        }
        assert forall|i: int| 0 <= i < list.len() && disk.present(#[trigger] list[i]) implies
            out.contains(list[i]) by {
            if i < earlier.len() {
                assert(earlier[i] == list[i]);
                let k = choose|k: int| 0 <= k < before.len() && before[k] == list[i];
                assert(out[k] == list[i]);
            } else {
                assert(out[out.len() - 1] == list[i]);
            }
        }
        if out.len() > 0 {
            let k = choose|k: int| 0 <= k < list.len() && list[k] == out[0];
            assert(disk.present(list[k]));
        }
    }
}

/// The model of bytes that may be absent.
pub open spec fn seen_bytes(bytes: Option<&Vec<u8>>) -> Option<Seq<u8>> {
    match bytes {
        Some(inner) => Some(inner@),
        None => None,
    }
}

/// The model of rows that may be absent.
pub open spec fn seen_rows(rows: Option<&Vec<String>>) -> Option<Seq<Seq<char>>> {
    match rows {
        Some(inner) => Some(text::texts(inner@)),
        None => None,
    }
}

/// The model of a file that may be absent.
pub open spec fn seen_file(file: Option<&DiskFile>) -> Option<FileView> {
    match file {
        Some(inner) => Some(inner@),
        None => None,
    }
}

/// Whether a file that changed at one time is new since another.
pub fn modified_since(modified: Option<i64>, since: Option<i64>) -> (fresh: bool)
    ensures
        fresh == changed_since(modified, since),
{
    match (modified, since) {
        (Some(at), Some(bound)) => at >= bound,
        _ => true,
    }
}

impl Disk {
    /// The file at a path.
    pub fn file(&self, path: &FilePath) -> (file: Option<&DiskFile>)
        ensures
            seen_file(file) == self@.file(path@),
    {
        let ghost all = self@.files;
        let mut i: usize = 0;
        assert(all.skip(0) =~= all);
        while i < self.files.len()
            invariant
                i <= self.files.len(),
                all == self@.files,
                file_in(all, path@) == file_in(all.skip(i as int), path@),
            decreases self.files.len() - i,
        {
            assert(all.skip(i as int)[0] == self.files[i as int]@);
            assert(all.skip(i as int).skip(1) =~= all.skip(i + 1));
            if self.files[i].path.same(path) {
                return Some(&self.files[i]);
            }
            i += 1;
        }
        None
    }

    /// Whether a path is a file.
    pub fn is_file(&self, path: &FilePath) -> (yes: bool)
        ensures
            yes == self@.is_file(path@),
    {
        self.file(path).is_some()
    }

    /// Whether a path exists and is no file.
    pub fn is_dir(&self, path: &FilePath) -> (yes: bool)
        ensures
            yes == self@.is_dir(path@),
    {
        let mut i: usize = 0;
        while i < self.dirs.len()
            invariant
                i <= self.dirs.len(),
                forall|j: int| 0 <= j < i ==> self@.dirs[j] != path@,
            decreases self.dirs.len() - i,
        {
            assert(self@.dirs[i as int] == self.dirs[i as int]@);
            if self.dirs[i].same(path) {
                return true;
            }
            i += 1;
        }
        false
    }

    /// Whether a path exists.
    pub fn present(&self, path: &FilePath) -> (yes: bool)
        ensures
            yes == self@.present(path@),
    {
        self.is_file(path) || self.is_dir(path)
    }

    /// The regular files below a root.
    pub fn walked(&self, root: &FilePath) -> (files: Vec<FilePath>)
        ensures
            paths::views(files@) == self@.walked(root@),
    {
        let ghost all = self@.walks;
        let mut i: usize = 0;
        assert(all.skip(0) =~= all);
        while i < self.walks.len()
            invariant
                i <= self.walks.len(),
                all == self@.walks,
                walk_in(all, root@) == walk_in(all.skip(i as int), root@),
            decreases self.walks.len() - i,
        {
            assert(all.skip(i as int)[0] == self.walks[i as int]@);
            assert(all.skip(i as int).skip(1) =~= all.skip(i + 1));
            if self.walks[i].root.same(root) {
                return paths::copy_paths(&self.walks[i].files);
            }
            i += 1;
        }
        let none: Vec<FilePath> = Vec::new();
        assert(paths::views(none@) =~= Seq::empty());
        none
    }

    /// The time at which a file changed.
    pub fn modified(&self, path: &FilePath) -> (at: Option<i64>)
        ensures
            at == self@.modified(path@),
    {
        match self.file(path) {
            Some(file) => file.modified,
            None => None,
        }
    }

    /// Whether a file is new since a time.
    pub fn fresh(&self, path: &FilePath, since: Option<i64>) -> (yes: bool)
        ensures
            yes == self@.fresh(path@, since),
    {
        modified_since(self.modified(path), since)
    }

    /// The bytes of a file.
    pub fn bytes(&self, path: &FilePath) -> (bytes: Option<&Vec<u8>>)
        ensures
            seen_bytes(bytes) == self@.bytes(path@),
    {
        match self.file(path) {
            Some(file) => match &file.bytes {
                Some(bytes) => Some(bytes),
                None => None,
            },
            None => None,
        }
    }

    /// The text of a file.
    pub fn text(&self, path: &FilePath) -> (out: Option<String>)
        ensures
            text::held(out) == self@.text(path@),
    {
        match self.bytes(path) {
            Some(bytes) => {
                let own = bytes.clone();
                assert(own@ =~= bytes@);
                text::text_from_bytes(own)
            },
            None => None,
        }
    }

    /// The rows of a database.
    pub fn rows(&self, path: &FilePath) -> (rows: Option<&Vec<String>>)
        ensures
            seen_rows(rows) == self@.rows(path@),
    {
        match self.file(path) {
            Some(file) => match &file.rows {
                Some(rows) => Some(rows),
                None => None,
            },
            None => None,
        }
    }
}

/// Those of some paths that exist.
pub fn present_paths(list: &Vec<FilePath>, disk: &Disk) -> (out: Vec<FilePath>)
    ensures
        paths::views(out@) == present_ones(paths::views(list@), disk@),
{
    let ghost all = paths::views(list@);
    let mut out: Vec<FilePath> = Vec::new();
    let mut i: usize = 0;
    assert(paths::views(out@) =~= present_ones(all.take(0), disk@));
    while i < list.len()
        invariant
            i <= list.len(),
            all == paths::views(list@),
            paths::views(out@) == present_ones(all.take(i as int), disk@),
        decreases list.len() - i,
    {
        assert(all.take(i + 1).drop_last() =~= all.take(i as int));
        assert(all.take(i + 1).last() == list[i as int]@);
        paths::push_if(&mut out, disk.present(&list[i]), &list[i]);
        i += 1;
    }
    assert(all.take(i as int) =~= all);
    out
}

} // verus!
