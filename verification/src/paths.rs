//! Paths as lists of names.
//!
//! The parts of a path, and which of two paths comes first, are those of `std::path::Path` on Unix:
//! a leading `/` is a part of its own, and an empty name or a `.` that does not
//! lead is none.
use crate::text;
use vstd::prelude::*;

pub mod laws;

verus! {

/// A path, part by part.
#[derive(Debug)]
pub struct FilePath {
    pub parts: Vec<String>,
}

impl View for FilePath {
    type V = Seq<Seq<char>>;

    open spec fn view(&self) -> Seq<Seq<char>> {
        text::texts(self.parts@)
    }
}

/// The model of a path that may be absent.
pub open spec fn held(path: Option<FilePath>) -> Option<Seq<Seq<char>>> {
    match path {
        Some(inner) => Some(inner@),
        None => None,
    }
}

/// The models of some paths.
pub open spec fn views(list: Seq<FilePath>) -> Seq<Seq<Seq<char>>> {
    list.map_values(|path: FilePath| path@)
}

/// What stands between the slashes of a text.
pub open spec fn pieces(s: Seq<char>) -> Seq<Seq<char>>
    decreases s.len(),
{
    let end = text::first_index(s, '/') as int;
    if end >= s.len() {
        seq![s]
    } else {
        seq![s.take(end)] + pieces(s.skip(end + 1))
    }
}

/// Those pieces that are names: neither empty nor `.`.
pub open spec fn named(list: Seq<Seq<char>>) -> Seq<Seq<char>>
    decreases list.len(),
{
    if list.len() == 0 {
        Seq::empty()
    } else {
        let before = named(list.drop_last());
        if list.last().len() == 0 || list.last() == "."@ {
            before
        } else {
            before.push(list.last())
        }
    }
}

/// Whether a text is an absolute path.
pub open spec fn is_absolute(s: Seq<char>) -> bool {
    s.len() > 0 && s[0] == '/'
}

/// The parts of a path written as text.
pub open spec fn path_parts(s: Seq<char>) -> Seq<Seq<char>> {
    if is_absolute(s) {
        seq!["/"@] + named(pieces(s))
    } else if pieces(s)[0] == "."@ {
        seq!["."@] + named(pieces(s))
    } else {
        named(pieces(s))
    }
}

/// The path that a text leads to from another.
pub open spec fn under(base: Seq<Seq<char>>, s: Seq<char>) -> Seq<Seq<char>> {
    if is_absolute(s) || base.len() == 0 {
        path_parts(s)
    } else {
        base + named(pieces(s))
    }
}

/// The last name of a path. The root, `.` and `..` have none.
pub open spec fn name_of(path: Seq<Seq<char>>) -> Option<Seq<char>> {
    if path.len() == 0 || path.last() == "/"@ || path.last() == "."@ || path.last() == ".."@ {
        None
    } else {
        Some(path.last())
    }
}

/// The path without its last part. The empty path and the root have none.
pub open spec fn parent_of(path: Seq<Seq<char>>) -> Option<Seq<Seq<char>>> {
    if path.len() == 0 || path.last() == "/"@ {
        None
    } else {
        Some(path.drop_last())
    }
}

/// The last name of the path above, for a path that may be absent.
pub open spec fn name_in(path: Option<Seq<Seq<char>>>) -> Option<Seq<char>> {
    match path {
        Some(inner) => name_of(inner),
        None => None,
    }
}

/// The path above one that may be absent.
pub open spec fn parent_in(path: Option<Seq<Seq<char>>>) -> Option<Seq<Seq<char>>> {
    match path {
        Some(inner) => parent_of(inner),
        None => None,
    }
}

/// Where a character last stands in a text, or -1.
pub open spec fn last_index(s: Seq<char>, c: char) -> int
    decreases s.len(),
{
    if s.len() == 0 {
        -1
    } else if s.last() == c {
        s.len() - 1
    } else {
        last_index(s.drop_last(), c)
    }
}

/// What follows the last dot of the last name, unless the dot leads it.
pub open spec fn extension_of(path: Seq<Seq<char>>) -> Option<Seq<char>> {
    match name_of(path) {
        Some(name) => if last_index(name, '.') > 0 {
            Some(name.skip(last_index(name, '.') + 1))
        } else {
            None
        },
        None => None,
    }
}

/// The last name without its extension.
pub open spec fn stem_of(path: Seq<Seq<char>>) -> Option<Seq<char>> {
    match name_of(path) {
        Some(name) => if last_index(name, '.') > 0 {
            Some(name.take(last_index(name, '.')))
        } else {
            Some(name)
        },
        None => None,
    }
}

/// Whether a path has the extension of a log of lines, in any case.
pub open spec fn lines_look(path: Seq<Seq<char>>) -> bool {
    extension_of(path) matches Some(extension) && text::ascii_lowered(extension)
        == text::ascii_lowered("jsonl"@)
}

/// A path written as text.
pub open spec fn rendered(path: Seq<Seq<char>>) -> Seq<char>
    decreases path.len(),
{
    if path.len() == 0 {
        Seq::empty()
    } else if path.len() == 1 {
        path[0]
    } else if path.len() == 2 && path[0] == "/"@ {
        path[0] + path[1]
    } else {
        rendered(path.drop_last()).push('/') + path.last()
    }
}

/// Whether a path is another or lies below it.
pub open spec fn lies_in(path: Seq<Seq<char>>, root: Seq<Seq<char>>) -> bool {
    root.len() <= path.len() && path.take(root.len() as int) == root
}

/// Whether a part of a path is a given name.
pub open spec fn has_part(path: Seq<Seq<char>>, name: Seq<char>) -> bool {
    exists|i: int| 0 <= i < path.len() && #[trigger] path[i] == name
}

/// Whether a text comes before another, character by character.
pub open spec fn text_less(a: Seq<char>, b: Seq<char>) -> bool
    decreases a.len(),
{
    if b.len() == 0 {
        false
    } else if a.len() == 0 {
        true
    } else if a[0] != b[0] {
        a[0] < b[0]
    } else {
        text_less(a.skip(1), b.skip(1))
    }
}

/// The root comes before `.`, that before `..`, and that before any name.
pub open spec fn rank(part: Seq<char>) -> int {
    if part == "/"@ {
        0
    } else if part == "."@ {
        1
    } else if part == ".."@ {
        2
    } else {
        3
    }
}

/// Whether a part of a path comes before another.
pub open spec fn part_less(a: Seq<char>, b: Seq<char>) -> bool {
    rank(a) < rank(b) || (rank(a) == rank(b) && text_less(a, b))
}

/// Whether a path comes before another, part by part.
pub open spec fn path_less(a: Seq<Seq<char>>, b: Seq<Seq<char>>) -> bool
    decreases a.len(),
{
    if b.len() == 0 {
        false
    } else if a.len() == 0 {
        true
    } else if a[0] != b[0] {
        part_less(a[0], b[0])
    } else {
        path_less(a.skip(1), b.skip(1))
    }
}

/// A path, where a condition holds.
pub open spec fn only_if(condition: bool, path: Seq<Seq<char>>) -> Seq<Seq<Seq<char>>> {
    if condition {
        seq![path]
    } else {
        Seq::empty()
    }
}

/// One more piece is one more name, unless it is empty or `.`.
proof fn lemma_named_push(list: Seq<Seq<char>>, piece: Seq<char>)
    ensures
        named(list.push(piece)) == if piece.len() == 0 || piece == "."@ {
            named(list)
        } else {
            named(list).push(piece)
        },
{
    assert(list.push(piece).drop_last() =~= list);
}

/// The pieces of a text.
fn split(s: &str) -> (out: Vec<String>)
    ensures
        text::texts(out@) == pieces(s@),
        out.len() > 0,
{
    let chars = text::chars_of(s);
    let mut out: Vec<String> = Vec::new();
    let mut start: usize = 0;
    let mut i: usize = 0;
    assert(s@.skip(0) =~= s@);
    while i < chars.len()
        invariant
            start <= i <= chars.len(),
            chars@ == s@,
            forall|j: int| start <= j < i ==> chars@[j] != '/',
            pieces(s@) =~= text::texts(out@) + pieces(s@.skip(start as int)),
        decreases chars.len() - i,
    {
        if chars[i] == '/' {
            let ghost rest = s@.skip(start as int);
            proof {
                assert forall|j: int| 0 <= j < i - start implies rest[j] != '/' by {
                    assert(rest[j] == chars@[j + start]);
                }
                text::lemma_first_index(rest, '/', i - start);
                assert(rest.take(i - start) =~= chars@.subrange(start as int, i as int));
                assert(rest.skip(i - start + 1) =~= s@.skip(i + 1));
            }
            out.push(text::text_of(&chars, start, i));
            start = i + 1;
        }
        i += 1;
    }
    let ghost rest = s@.skip(start as int);
    proof {
        assert forall|j: int| 0 <= j < rest.len() implies rest[j] != '/' by {
            assert(rest[j] == chars@[j + start]);
        }
        text::lemma_first_index(rest, '/', rest.len() as int);
    }
    let tail = text::text_of(&chars, start, chars.len());
    assert(tail@ =~= rest);
    out.push(tail);
    assert(text::texts(out@) =~= pieces(s@));
    out
}

/// Puts the names among some pieces behind the parts of a path.
fn add_names(parts: &mut Vec<String>, list: &Vec<String>)
    ensures
        text::texts(final(parts)@) == text::texts(old(parts)@) + named(text::texts(list@)),
{
    let ghost before = text::texts(parts@);
    let ghost all = text::texts(list@);
    let mut i: usize = 0;
    while i < list.len()
        invariant
            i <= list.len(),
            all == text::texts(list@),
            text::texts(parts@) =~= before + named(all.take(i as int)),
        decreases list.len() - i,
    {
        proof {
            lemma_named_push(all.take(i as int), list[i as int]@);
            assert(all.take(i + 1) =~= all.take(i as int).push(list[i as int]@));
        }
        let ghost now = parts@;
        let piece = list[i].as_str();
        let skipped = piece.is_empty() || text::same_text(piece, ".");
        if !skipped {
            parts.push(list[i].clone());
            assert(text::texts(parts@) =~= text::texts(now).push(piece@));
            assert(named(all.take(i + 1)) == named(all.take(i as int)).push(piece@));
        } else {
            assert(named(all.take(i + 1)) == named(all.take(i as int)));
        }
        i += 1;
    }
    assert(all.take(i as int) =~= all);
}

/// Whether a text is an absolute path.
fn absolute(s: &str) -> (yes: bool)
    ensures
        yes == is_absolute(s@),
{
    let chars = text::chars_of(s);
    chars.len() > 0 && chars[0] == '/'
}

impl FilePath {
    /// The path that a text writes.
    pub fn parse(s: &str) -> (path: FilePath)
        ensures
            path@ == path_parts(s@),
    {
        let list = split(s);
        let mut parts: Vec<String> = Vec::new();
        if absolute(s) {
            parts.push("/".to_owned());
        } else if text::same_text(list[0].as_str(), ".") {
            parts.push(".".to_owned());
        }
        add_names(&mut parts, &list);
        assert(text::texts(list@)[0] == list[0]@);
        assert(text::texts(parts@) =~= path_parts(s@));
        FilePath { parts }
    }

    /// The path that a text leads to from this one.
    pub fn join(&self, s: &str) -> (path: FilePath)
        ensures
            path@ == under(self@, s@),
    {
        if self.parts.len() == 0 || absolute(s) {
            return FilePath::parse(s);
        }
        let mut parts = copy_parts(&self.parts, self.parts.len());
        let list = split(s);
        assert(text::texts(self.parts@).take(self.parts.len() as int) =~= text::texts(
            self.parts@,
        ));
        add_names(&mut parts, &list);
        FilePath { parts }
    }

    /// A path of its own with the same parts.
    pub fn copy(&self) -> (twin: FilePath)
        ensures
            twin@ == self@,
    {
        let parts = copy_parts(&self.parts, self.parts.len());
        assert(text::texts(self.parts@).take(self.parts.len() as int) =~= text::texts(
            self.parts@,
        ));
        FilePath { parts }
    }

    /// The last name.
    pub fn file_name(&self) -> (name: Option<&str>)
        ensures
            text::seen(name) == name_of(self@),
    {
        if self.parts.len() == 0 {
            return None;
        }
        let last = self.parts[self.parts.len() - 1].as_str();
        assert(self@.last() == last@);
        if text::same_text(last, "/") || text::same_text(last, ".") || text::same_text(last, "..") {
            None
        } else {
            Some(last)
        }
    }

    /// The path without its last part.
    pub fn parent(&self) -> (parent: Option<FilePath>)
        ensures
            held(parent) == parent_of(self@),
    {
        if self.parts.len() == 0 {
            return None;
        }
        let end = self.parts.len() - 1;
        assert(self@.last() == self.parts[end as int]@);
        if text::same_text(self.parts[end].as_str(), "/") {
            return None;
        }
        let parts = copy_parts(&self.parts, end);
        assert(text::texts(parts@) =~= self@.drop_last());
        Some(FilePath { parts })
    }

    /// Whether the last name is a given one.
    pub fn is_named(&self, name: &str) -> (yes: bool)
        ensures
            yes == (name_of(self@) == Some(name@)),
    {
        match self.file_name() {
            Some(own) => text::same_text(own, name),
            None => false,
        }
    }

    /// Whether the last name of the path above is a given one.
    pub fn parent_is_named(&self, name: &str) -> (yes: bool)
        ensures
            yes == (name_in(parent_of(self@)) == Some(name@)),
    {
        match self.parent() {
            Some(parent) => parent.is_named(name),
            None => false,
        }
    }

    /// What follows the last dot of the last name.
    pub fn extension(&self) -> (extension: Option<String>)
        ensures
            text::held(extension) == extension_of(self@),
    {
        match self.file_name() {
            Some(name) => {
                let chars = text::chars_of(name);
                match last_place(&chars, '.') {
                    Some(at) if at > 0 => {
                        let out = text::text_of(&chars, at + 1, chars.len());
                        assert(out@ =~= name@.skip(at + 1));
                        Some(out)
                    },
                    _ => None,
                }
            },
            None => None,
        }
    }

    /// The last name without its extension.
    pub fn file_stem(&self) -> (stem: Option<String>)
        ensures
            text::held(stem) == stem_of(self@),
    {
        match self.file_name() {
            Some(name) => {
                let chars = text::chars_of(name);
                match last_place(&chars, '.') {
                    Some(at) if at > 0 => {
                        let out = text::text_of(&chars, 0, at);
                        assert(out@ =~= name@.take(at as int));
                        Some(out)
                    },
                    _ => Some(name.to_owned()),
                }
            },
            None => None,
        }
    }

    /// Whether the extension is that of a log of lines, in any case.
    pub fn has_lines_extension(&self) -> (yes: bool)
        ensures
            yes == lines_look(self@),
    {
        match self.extension() {
            Some(extension) => text::same_ignoring_case(extension.as_str(), "jsonl"),
            None => false,
        }
    }

    /// The path as text.
    pub fn to_text(&self) -> (out: String)
        ensures
            out@ == rendered(self@),
    {
        let ghost all = self@;
        let mut out = String::new();
        let mut i: usize = 0;
        while i < self.parts.len()
            invariant
                i <= self.parts.len(),
                all == self@,
                out@ == rendered(all.take(i as int)),
            decreases self.parts.len() - i,
        {
            assert(all.take(i + 1).drop_last() =~= all.take(i as int));
            assert(all.take(i + 1).last() == self.parts[i as int]@);
            if i > 1 || (i == 1 && !text::same_text(self.parts[0].as_str(), "/")) {
                out.push('/');
            }
            out.append(self.parts[i].as_str());
            assert(out@ =~= rendered(all.take(i + 1)));
            i += 1;
        }
        assert(all.take(i as int) =~= all);
        out
    }

    /// Whether this is the same path as another.
    pub fn same(&self, other: &FilePath) -> (yes: bool)
        ensures
            yes == (self@ == other@),
    {
        if self.parts.len() != other.parts.len() {
            assert(self@.len() != other@.len());
            return false;
        }
        let mut i: usize = 0;
        while i < self.parts.len()
            invariant
                i <= self.parts.len(),
                self.parts.len() == other.parts.len(),
                forall|j: int| 0 <= j < i ==> self@[j] == other@[j],
            decreases self.parts.len() - i,
        {
            if !text::same_text(self.parts[i].as_str(), other.parts[i].as_str()) {
                assert(self@[i as int] != other@[i as int]);
                return false;
            }
            assert(self@[i as int] == other@[i as int]);
            i += 1;
        }
        assert(self@ =~= other@);
        true
    }

    /// Whether some part is a given name.
    pub fn has(&self, name: &str) -> (yes: bool)
        ensures
            yes == has_part(self@, name@),
    {
        let mut i: usize = 0;
        while i < self.parts.len()
            invariant
                i <= self.parts.len(),
                forall|j: int| 0 <= j < i ==> #[trigger] self@[j] != name@,
            decreases self.parts.len() - i,
        {
            assert(self@[i as int] == self.parts[i as int]@);
            if text::same_text(self.parts[i].as_str(), name) {
                return true;
            }
            i += 1;
        }
        false
    }
}

/// The first parts of a path, copied.
fn copy_parts(parts: &Vec<String>, end: usize) -> (out: Vec<String>)
    requires
        end <= parts.len(),
    ensures
        text::texts(out@) == text::texts(parts@).take(end as int),
{
    let mut out: Vec<String> = Vec::new();
    let mut i: usize = 0;
    while i < end
        invariant
            i <= end <= parts.len(),
            out.len() == i,
            forall|j: int| 0 <= j < i ==> (#[trigger] out[j])@ == parts[j]@,
        decreases end - i,
    {
        out.push(parts[i].clone());
        i += 1;
    }
    assert(text::texts(out@) =~= text::texts(parts@).take(end as int));
    out
}

/// One more path is one more model.
pub broadcast proof fn lemma_views_push(list: Seq<FilePath>, path: FilePath)
    ensures
        #[trigger] views(list.push(path)) == views(list).push(path@),
{
    assert(views(list.push(path)) =~= views(list).push(path@));
}

/// Puts a path behind others where a condition holds.
pub fn push_if(out: &mut Vec<FilePath>, condition: bool, path: &FilePath)
    ensures
        views(final(out)@) == views(old(out)@) + only_if(condition, path@),
{
    broadcast use lemma_views_push;

    let ghost before = views(out@);
    if condition {
        out.push(path.copy());
        assert(before.push(path@) =~= before + only_if(condition, path@));
    } else {
        assert(before =~= before + only_if(condition, path@));
    }
}

/// Puts paths behind others.
pub fn push_all(out: &mut Vec<FilePath>, more: Vec<FilePath>)
    ensures
        views(final(out)@) == views(old(out)@) + views(more@),
{
    let ghost before = out@;
    let mut rest = more;
    out.append(&mut rest);
    assert(views(out@) =~= views(before) + views(more@));
}

/// Copies of some paths.
pub fn copy_paths(list: &Vec<FilePath>) -> (out: Vec<FilePath>)
    ensures
        views(out@) == views(list@),
{
    let mut out: Vec<FilePath> = Vec::new();
    let mut i: usize = 0;
    while i < list.len()
        invariant
            i <= list.len(),
            out.len() == i,
            forall|j: int| 0 <= j < i ==> (#[trigger] out[j])@ == list[j]@,
        decreases list.len() - i,
    {
        out.push(list[i].copy());
        i += 1;
    }
    assert(views(out@) =~= views(list@));
    out
}

/// Where a character last stands.
fn last_place(chars: &Vec<char>, c: char) -> (at: Option<usize>)
    ensures
        match at {
            Some(place) => place == last_index(chars@, c) && place < chars.len(),
            None => last_index(chars@, c) == -1,
        },
{
    let mut i: usize = chars.len();
    assert(chars@.take(i as int) =~= chars@);
    while i > 0
        invariant
            i <= chars.len(),
            last_index(chars@, c) == last_index(chars@.take(i as int), c),
        decreases i,
    {
        assert(chars@.take(i as int).drop_last() =~= chars@.take(i - 1));
        assert(chars@.take(i as int).last() == chars@[i - 1]);
        if chars[i - 1] == c {
            return Some(i - 1);
        }
        i -= 1;
    }
    None
}

} // verus!
