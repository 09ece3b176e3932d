//! What holds of every path.
use crate::paths;
use crate::text;
use vstd::prelude::*;

verus! {

/// Whether a text is one name: not empty, not `.`, and without a slash.
pub open spec fn is_name(s: Seq<char>) -> bool {
    s.len() > 0 && s != "."@ && !s.contains('/')
}

proof fn lemma_named_add(a: Seq<Seq<char>>, b: Seq<Seq<char>>)
    ensures
        paths::named(a + b) == paths::named(a) + paths::named(b),
    decreases b.len(),
{
    if b.len() == 0 {
        assert(a + b =~= a);
        assert(paths::named(a) + paths::named(b) =~= paths::named(a));
    } else {
        lemma_named_add(a, b.drop_last());
        assert((a + b).drop_last() =~= a + b.drop_last());
        assert((a + b).last() == b.last());
        assert(paths::named(a + b) =~= paths::named(a) + paths::named(b));
    }
}

proof fn lemma_pieces(name: Seq<char>, rest: Seq<char>)
    requires
        !name.contains('/'),
    ensures
        paths::pieces(name) == seq![name],
        paths::pieces(name + seq!['/'] + rest) == seq![name] + paths::pieces(rest),
{
    let whole = name + seq!['/'] + rest;
    assert forall|j: int| 0 <= j < name.len() implies name[j] != '/' by {
        assert(name.contains(name[j]));
    }
    text::lemma_first_index(whole, '/', name.len() as int);
    text::lemma_first_index(name, '/', name.len() as int);
    assert(whole.take(name.len() as int) =~= name);
    assert(whole.skip(name.len() as int + 1) =~= rest);
}

proof fn lemma_one_name(name: Seq<char>)
    requires
        is_name(name),
    ensures
        paths::named(seq![name]) == seq![name],
{
    assert(seq![name].drop_last() =~= Seq::empty());
    assert(paths::named(Seq::empty()) =~= Seq::empty());
    assert(paths::named(seq![name]) =~= seq![name]);
}

/// A name leads one step down from a path, and a slash between two parts of a
/// text leads down by the first and then by the second. A text that starts with a
/// slash leads from the root instead.
pub proof fn law_slashes_lead_down(base: Seq<Seq<char>>, name: Seq<char>, rest: Seq<char>)
    requires
        base.len() > 0,
        is_name(name),
    ensures
        paths::under(base, name) == base.push(name),
        rest.len() > 0 && rest[0] != '/' ==> paths::under(base, name + seq!['/'] + rest)
            == paths::under(base.push(name), rest),
        paths::under(base, seq!['/'] + name) == seq!["/"@, name],
{
    lemma_pieces(name, rest);
    lemma_one_name(name);
    assert(name.contains(name[0]));
    assert(base + seq![name] =~= base.push(name));
    let whole = name + seq!['/'] + rest;
    assert(whole[0] == name[0]);
    lemma_named_add(seq![name], paths::pieces(rest));
    assert(base + (seq![name] + paths::named(paths::pieces(rest))) =~= base.push(name)
        + paths::named(paths::pieces(rest)));
    let none = Seq::<char>::empty();
    lemma_pieces(none, name);
    assert(none + seq!['/'] + name =~= seq!['/'] + name);
    lemma_named_add(seq![none], seq![name]);
    assert(seq![none].drop_last() =~= Seq::empty());
    assert(paths::named(Seq::empty()) =~= Seq::empty());
    assert(paths::named(seq![none]) =~= Seq::empty());
    assert((seq!['/'] + name)[0] == '/');
    assert(seq!["/"@] + (Seq::empty() + seq![name]) =~= seq!["/"@, name]);
}

/// The last name of a path is the one that led there, and the path above it is
/// the one before that step.
pub proof fn law_a_step_down_is_undone(base: Seq<Seq<char>>, name: Seq<char>)
    requires
        is_name(name),
        name != ".."@,
    ensures
        paths::name_of(base.push(name)) == Some(name),
        paths::parent_of(base.push(name)) == Some(base),
        paths::name_of(Seq::empty()) is None,
        paths::parent_of(Seq::empty()) is None,
        paths::parent_of(seq!["/"@]) is None,
        paths::name_of(seq!["/"@]) is None,
        paths::name_in(Some(base.push(name))) == Some(name),
        paths::parent_in(Some(base.push(name))) == Some(base),
        paths::name_in(None) is None,
        paths::parent_in(None) is None,
{
    reveal_strlit("/");
    assert(base.push(name).drop_last() =~= base);
    assert("/"@.contains("/"@[0]));
}

proof fn lemma_last_index(stem: Seq<char>, extension: Seq<char>)
    requires
        !extension.contains('.'),
    ensures
        paths::last_index(stem + seq!['.'] + extension, '.') == stem.len(),
        paths::last_index(extension, '.') == -1,
    decreases extension.len(),
{
    let whole = stem + seq!['.'] + extension;
    if extension.len() == 0 {
        assert(whole.last() == '.');
    } else {
        assert(extension.contains(extension.last()));
        assert(whole.last() == extension.last());
        assert(whole.drop_last() =~= stem + seq!['.'] + extension.drop_last());
        let shorter = extension.drop_last();
        assert(!shorter.contains('.')) by {
            if shorter.contains('.') {
                let i = choose|i: int| 0 <= i < shorter.len() && shorter[i] == '.';
                assert(extension[i] == '.');
            }
        }
        lemma_last_index(stem, shorter);
    }
}

/// What follows the last dot of a name is its extension and what precedes the dot
/// its stem, unless the dot leads the name; a name without such a dot is all stem.
pub proof fn law_the_last_dot_parts_a_name(
    path: Seq<Seq<char>>,
    stem: Seq<char>,
    extension: Seq<char>,
)
    requires
        !extension.contains('.'),
    ensures
        paths::name_of(path) == Some(stem + seq!['.'] + extension) && stem.len() > 0
            ==> paths::extension_of(path) == Some(extension) && paths::stem_of(path) == Some(stem),
        paths::name_of(path) == Some(seq!['.'] + extension) ==> paths::extension_of(path) is None
            && paths::stem_of(path) == paths::name_of(path),
        paths::name_of(path) == Some(extension) ==> paths::extension_of(path) is None
            && paths::stem_of(path) == Some(extension),
        paths::name_of(path) is None ==> paths::extension_of(path) is None && paths::stem_of(path)
            is None,
{
    let whole = stem + seq!['.'] + extension;
    lemma_last_index(stem, extension);
    lemma_last_index(Seq::empty(), extension);
    assert(Seq::<char>::empty() + seq!['.'] + extension =~= seq!['.'] + extension);
    assert(whole.take(stem.len() as int) =~= stem);
    assert(whole.skip(stem.len() as int + 1) =~= extension);
}

/// A path is a log of lines just when its extension is `jsonl`, in any case.
pub proof fn law_logs_of_lines_have_their_extension(path: Seq<Seq<char>>)
    ensures
        paths::extension_of(path) == Some("jsonl"@) || paths::extension_of(path) == Some("JSONL"@)
            ==> paths::lines_look(path),
        paths::extension_of(path) is None ==> !paths::lines_look(path),
        paths::extension_of(path) matches Some(extension) && extension.len() != 5
            ==> !paths::lines_look(path),
        paths::extension_of(path) == Some("json"@) ==> !paths::lines_look(path),
{
    reveal_strlit("jsonl");
    reveal_strlit("JSONL");
    reveal_strlit("json");
    assert(text::ascii_lowered("JSONL"@) =~= "jsonl"@);
    assert(text::ascii_lowered("jsonl"@) =~= "jsonl"@);
    assert(text::ascii_lowered("jsonl"@).len() == 5);
    if let Some(extension) = paths::extension_of(path) {
        assert(text::ascii_lowered(extension).len() == extension.len());
    }
}

/// Written as text, the parts of a path stand in order with a slash before each
/// name that follows another.
pub proof fn law_a_path_is_written_part_by_part(base: Seq<Seq<char>>, name: Seq<char>)
    requires
        base.len() > 0,
    ensures
        paths::rendered(base.push(name)) == if base == seq!["/"@] {
            "/"@ + name
        } else {
            paths::rendered(base) + seq!['/'] + name
        },
        paths::rendered(seq![name]) == name,
{
    let longer = base.push(name);
    assert(longer.drop_last() =~= base);
    assert(longer.last() == name);
    if base.len() == 1 {
        assert(base =~= seq![base[0]]);
        assert(longer[0] == base[0]);
    }
    assert(paths::rendered(base).push('/') + name =~= paths::rendered(base) + seq!['/'] + name);
}

proof fn lemma_text_skip(p: Seq<char>, a: Seq<char>, b: Seq<char>)
    ensures
        paths::text_less(p + a, p + b) == paths::text_less(a, b),
    decreases p.len(),
{
    if p.len() == 0 {
        assert(p + a =~= a);
        assert(p + b =~= b);
    } else {
        assert((p + a).skip(1) =~= p.skip(1) + a);
        assert((p + b).skip(1) =~= p.skip(1) + b);
        lemma_text_skip(p.skip(1), a, b);
    }
}

proof fn lemma_path_skip(p: Seq<Seq<char>>, a: Seq<Seq<char>>, b: Seq<Seq<char>>)
    ensures
        paths::path_less(p + a, p + b) == paths::path_less(a, b),
    decreases p.len(),
{
    if p.len() == 0 {
        assert(p + a =~= a);
        assert(p + b =~= b);
    } else {
        assert((p + a).skip(1) =~= p.skip(1) + a);
        assert((p + b).skip(1) =~= p.skip(1) + b);
        lemma_path_skip(p.skip(1), a, b);
    }
}

/// Of two names the first character in which they differ decides which comes
/// first, by its code point; a name comes before those that it begins.
pub proof fn law_names_are_ordered_by_their_characters(
    common: Seq<char>,
    c: char,
    d: char,
    one: Seq<char>,
    other: Seq<char>,
)
    requires
        c != d,
    ensures
        paths::text_less(common + (seq![c] + one), common + (seq![d] + other)) <==> c < d,
        paths::text_less(common, common + (seq![c] + one)),
        !paths::text_less(common + (seq![c] + one), common),
{
    lemma_text_skip(common, seq![c] + one, seq![d] + other);
    lemma_text_skip(common, Seq::empty(), seq![c] + one);
    lemma_text_skip(common, seq![c] + one, Seq::empty());
    assert(common + Seq::<char>::empty() =~= common);
    assert((seq![c] + one)[0] == c);
    assert((seq![d] + other)[0] == d);
}

/// Of two paths the first part in which they differ decides which comes first; a
/// path comes before what lies below it, and the root before a name.
pub proof fn law_paths_are_ordered_by_their_parts(
    common: Seq<Seq<char>>,
    x: Seq<char>,
    y: Seq<char>,
    one: Seq<Seq<char>>,
    other: Seq<Seq<char>>,
)
    requires
        is_name(x),
        is_name(y),
        x != ".."@,
        y != ".."@,
        x != y,
    ensures
        paths::path_less(common + (seq![x] + one), common + (seq![y] + other)) <==> paths::text_less(
            x,
            y,
        ),
        paths::path_less(common, common + (seq![x] + one)),
        paths::path_less(seq!["/"@] + one, seq![x] + other),
{
    reveal_strlit("/");
    assert("/"@.contains("/"@[0]));
    lemma_path_skip(common, seq![x] + one, seq![y] + other);
    lemma_path_skip(common, Seq::empty(), seq![x] + one);
    assert(common + Seq::<Seq<char>>::empty() =~= common);
    assert((seq![x] + one)[0] == x);
    assert((seq![y] + other)[0] == y);
    assert((seq!["/"@] + one)[0] == "/"@);
    assert((seq![x] + other)[0] == x);
}

/// A path lies in another just when it is that one and some more parts.
pub proof fn law_below_is_longer(base: Seq<Seq<char>>, more: Seq<Seq<char>>, path: Seq<Seq<char>>)
    ensures
        paths::lies_in(base + more, base),
        paths::lies_in(path, base) ==> path == base + path.skip(base.len() as int),
        paths::has_part(path, base.last()) && base.len() > 0 ==> path.contains(base.last()),
        path.contains(base.last()) ==> paths::has_part(path, base.last()),
{
    assert((base + more).take(base.len() as int) =~= base);
    if paths::lies_in(path, base) {
        assert(path =~= path.take(base.len() as int) + path.skip(base.len() as int));
    }
}

/// A path written as text is read from its start: a slash leads down from the root,
/// a name from that name, and a `.` before a slash from where one is. Behind the
/// start an empty name or a `.` leads nowhere.
pub proof fn law_a_text_is_read_from_its_start(
    base: Seq<Seq<char>>,
    name: Seq<char>,
    rest: Seq<char>,
)
    requires
        base.len() > 0,
        is_name(name),
        !paths::is_absolute(rest),
    ensures
        paths::path_parts(name) == seq![name],
        paths::path_parts(name + seq!['/'] + rest) == paths::under(seq![name], rest),
        paths::path_parts(seq!['/'] + rest) == paths::under(seq!["/"@], rest),
        paths::path_parts("."@ + seq!['/'] + rest) == paths::under(seq!["."@], rest),
        paths::under(Seq::empty(), name) == seq![name],
        paths::under(base, "."@ + seq!['/'] + rest) == paths::under(base, rest),
        paths::under(base, Seq::empty()) == base,
        paths::under(base, name + seq!['/', '/'] + rest) == paths::under(base.push(name), rest),
{
    reveal_strlit(".");
    let none = Seq::<char>::empty();
    let dot = "."@;
    assert(dot.len() == 1 && dot[0] == '.');
    assert(!dot.contains('/'));
    assert(name.contains(name[0]));
    lemma_pieces(name, rest);
    lemma_pieces(none, rest);
    lemma_pieces(dot, rest);
    lemma_one_name(name);
    let long = name + seq!['/'] + rest;
    let root = seq!['/'] + rest;
    let here = dot + seq!['/'] + rest;
    assert(long[0] == name[0]);
    assert(root[0] == '/');
    assert(here[0] == '.');
    assert(none + seq!['/'] + rest =~= root);
    assert(paths::named(Seq::empty()) =~= Seq::empty());
    assert(seq![none].drop_last() =~= Seq::empty());
    assert(paths::named(seq![none]) =~= Seq::empty());
    assert(seq![dot].drop_last() =~= Seq::empty());
    assert(paths::named(seq![dot]) =~= Seq::empty());
    lemma_named_add(seq![name], paths::pieces(rest));
    lemma_named_add(seq![none], paths::pieces(rest));
    lemma_named_add(seq![dot], paths::pieces(rest));
    let below = paths::named(paths::pieces(rest));
    assert(Seq::empty() + below =~= below);
    assert((seq![name] + paths::pieces(rest))[0] == name);
    assert((seq![dot] + paths::pieces(rest))[0] == dot);
    assert(seq!["."@] + below =~= seq![dot] + below);
    lemma_pieces(none, none);
    assert(base + Seq::<Seq<char>>::empty() =~= base);
    let double = name + seq!['/', '/'] + rest;
    assert(double =~= name + seq!['/'] + root);
    assert(double[0] == name[0]);
    lemma_pieces(name, root);
    lemma_named_add(seq![name], paths::pieces(root));
    assert(base + (seq![name] + below) =~= base.push(name) + below);
}

} // verus!
