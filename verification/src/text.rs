//! Text as a sequence of characters.
use vstd::prelude::*;
use vstd::utf8::*;

pub mod laws;

verus! {

/// `String::push` appends one character.
pub assume_specification[ String::push ](s: &mut String, c: char)
    ensures
        final(s)@ == old(s)@.push(c),
;

/// The characters of a text that may be absent.
pub open spec fn seen(value: Option<&str>) -> Option<Seq<char>> {
    match value {
        Some(s) => Some(s@),
        None => None,
    }
}

/// The characters of a string that may be absent.
pub open spec fn held(value: Option<String>) -> Option<Seq<char>> {
    match value {
        Some(s) => Some(s@),
        None => None,
    }
}

/// The first of two texts that is present.
pub open spec fn text_or(first: Option<Seq<char>>, second: Option<Seq<char>>) -> Option<
    Seq<char>,
> {
    if first is Some {
        first
    } else {
        second
    }
}

/// The first of two texts that is not empty.
pub open spec fn filled_or(first: Seq<char>, second: Seq<char>) -> Seq<char> {
    if first.len() > 0 {
        first
    } else {
        second
    }
}

/// Whether two texts are the same characters.
pub fn same_text(a: &str, b: &str) -> (same: bool)
    ensures
        same == (a@ == b@),
{
    let x = a.as_bytes();
    let y = b.as_bytes();
    proof {
        encode_utf8_decode_utf8(a@);
        encode_utf8_decode_utf8(b@);
    }
    if x.len() != y.len() {
        return false;
    }
    let mut i: usize = 0;
    while i < x.len()
        invariant
            i <= x.len(),
            x.len() == y.len(),
            forall|j: int| 0 <= j < i ==> x[j] == y[j],
            x@ == encode_utf8(a@),
            y@ == encode_utf8(b@),
        decreases x.len() - i,
    {
        if x[i] != y[i] {
            return false;
        }
        i += 1;
    }
    assert(x@ =~= y@);
    true
}

/// The characters of a text, one after another.
pub fn chars_of(s: &str) -> (chars: Vec<char>)
    ensures
        chars@ == s@,
{
    let mut out: Vec<char> = Vec::new();
    for c in it: s.chars()
        invariant
            out@ == it.seq().take(it.index() as int),
            it.seq() == s@,
    {
        out.push(c);
    }
    assert(out@ =~= s@);
    out
}

/// The text made of the characters from `from` up to `to`.
pub fn text_of(chars: &Vec<char>, from: usize, to: usize) -> (s: String)
    requires
        from <= to <= chars.len(),
    ensures
        s@ == chars@.subrange(from as int, to as int),
{
    let mut out = String::new();
    let mut i: usize = from;
    while i < to
        invariant
            from <= i <= to <= chars.len(),
            out@ == chars@.subrange(from as int, i as int),
        decreases to - i,
    {
        out.push(chars[i]);
        i += 1;
    }
    out
}

/// Whether a character is white space, as Unicode's `White_Space` lists it.
pub open spec fn is_white(c: char) -> bool {
    ||| '\u{9}' <= c <= '\u{d}'
    ||| c == ' '
    ||| c == '\u{85}'
    ||| c == '\u{a0}'
    ||| c == '\u{1680}'
    ||| '\u{2000}' <= c <= '\u{200a}'
    ||| c == '\u{2028}'
    ||| c == '\u{2029}'
    ||| c == '\u{202f}'
    ||| c == '\u{205f}'
    ||| c == '\u{3000}'
}

/// A text without the white space at its start.
pub open spec fn trimmed_start(s: Seq<char>) -> Seq<char>
    decreases s.len(),
{
    if s.len() > 0 && is_white(s[0]) {
        trimmed_start(s.skip(1))
    } else {
        s
    }
}

/// A text without the white space at its end.
pub open spec fn trimmed_end(s: Seq<char>) -> Seq<char>
    decreases s.len(),
{
    if s.len() > 0 && is_white(s.last()) {
        trimmed_end(s.drop_last())
    } else {
        s
    }
}

/// A text without the white space at its ends.
pub open spec fn trimmed(s: Seq<char>) -> Seq<char> {
    trimmed_end(trimmed_start(s))
}

/// Whether a text is white space throughout.
pub open spec fn is_blank(s: Seq<char>) -> bool {
    trimmed(s).len() == 0
}

/// Where an item first stands, or the length of the whole.
pub open spec fn first_index<T>(s: Seq<T>, c: T) -> nat
    decreases s.len(),
{
    if s.len() == 0 || s[0] == c {
        0
    } else {
        1 + first_index(s.skip(1), c)
    }
}

/// A line without the carriage return at its end.
pub open spec fn without_return(line: Seq<char>) -> Seq<char> {
    if line.len() > 0 && line.last() == '\r' {
        line.drop_last()
    } else {
        line
    }
}

/// The lines of a text. A line ends with a line feed, which a carriage return
/// may precede; the last may lack it.
pub open spec fn lines_of(s: Seq<char>) -> Seq<Seq<char>>
    decreases s.len(),
{
    if s.len() == 0 {
        Seq::empty()
    } else {
        let end = first_index(s, '\n') as int;
        if end >= s.len() {
            seq![s]
        } else {
            seq![without_return(s.take(end))] + lines_of(s.skip(end + 1))
        }
    }
}

/// The lines of a text that are not blank, without the white space at their ends.
pub open spec fn content_lines(s: Seq<char>) -> Seq<Seq<char>> {
    filled_lines(lines_of(s))
}

/// Those of some lines that are not blank, without the white space at their ends.
pub open spec fn filled_lines(lines: Seq<Seq<char>>) -> Seq<Seq<char>>
    decreases lines.len(),
{
    if lines.len() == 0 {
        Seq::empty()
    } else {
        let before = filled_lines(lines.drop_last());
        if is_blank(lines.last()) {
            before
        } else {
            before.push(trimmed(lines.last()))
        }
    }
}

/// Those of some lines that are not blank.
pub open spec fn nonblank(lines: Seq<Seq<char>>) -> Seq<Seq<char>>
    decreases lines.len(),
{
    if lines.len() == 0 {
        Seq::empty()
    } else {
        let before = nonblank(lines.drop_last());
        if is_blank(lines.last()) {
            before
        } else {
            before.push(lines.last())
        }
    }
}

/// The models of a list of strings.
pub open spec fn texts(list: Seq<String>) -> Seq<Seq<char>> {
    list.map_values(|s: String| s@)
}

/// One more string is one more text.
pub broadcast proof fn lemma_texts_push(list: Seq<String>, s: String)
    ensures
        #[trigger] texts(list.push(s)) == texts(list).push(s@),
{
    assert(texts(list.push(s)) =~= texts(list).push(s@));
}

/// One more item is one more that a list holds.
pub proof fn lemma_contains_push(list: Seq<Seq<char>>, s: Seq<char>)
    ensures
        forall|x: Seq<char>| #[trigger] list.push(s).contains(x) <==> list.contains(x) || x == s,
{
    let longer = list.push(s);
    assert forall|x: Seq<char>| #[trigger] longer.contains(x) <==> list.contains(x) || x == s by {
        if list.contains(x) {
            let i = choose|i: int| 0 <= i < list.len() && list[i] == x;
            assert(longer[i] == x);
        }
        assert(longer[list.len() as int] == s);
        if longer.contains(x) && x != s {
            let i = choose|i: int| 0 <= i < longer.len() && longer[i] == x;
            assert(list[i] == x);
        }
    }
}

/// Whether a text is among some strings.
pub fn is_among(list: &Vec<String>, s: &str) -> (yes: bool)
    ensures
        yes == texts(list@).contains(s@),
{
    let mut i: usize = 0;
    while i < list.len()
        invariant
            i <= list.len(),
            forall|j: int| 0 <= j < i ==> texts(list@)[j] != s@,
        decreases list.len() - i,
    {
        assert(texts(list@)[i as int] == list[i as int]@);
        if same_text(list[i].as_str(), s) {
            return true;
        }
        i += 1;
    }
    false
}

/// An item that is not met before `at` and stands there is first met there.
pub proof fn lemma_first_index<T>(s: Seq<T>, c: T, at: int)
    requires
        0 <= at <= s.len(),
        forall|j: int| 0 <= j < at ==> s[j] != c,
        at < s.len() ==> s[at] == c,
    ensures
        first_index(s, c) == at,
    decreases s.len(),
{
    if s.len() > 0 && at > 0 {
        assert(s[0] != c);
        assert forall|j: int| 0 <= j < at - 1 implies s.skip(1)[j] != c by {
            assert(s.skip(1)[j] == s[j + 1]);
        }
        lemma_first_index(s.skip(1), c, at - 1);
    }
}

/// What comes before the first place of an item is free of it.
pub proof fn lemma_first_index_bound<T>(s: Seq<T>, c: T)
    ensures
        first_index(s, c) <= s.len(),
        first_index(s, c) < s.len() ==> s[first_index(s, c) as int] == c,
        forall|j: int| 0 <= j < first_index(s, c) ==> s[j] != c,
    decreases s.len(),
{
    if s.len() > 0 && s[0] != c {
        lemma_first_index_bound(s.skip(1), c);
        assert forall|j: int| 0 <= j < first_index(s, c) implies s[j] != c by {
            if j > 0 {
                assert(s[j] == s.skip(1)[j - 1]);
            }
        }
    }
}

/// White space up to a place, and none there, is what is cut at the start.
pub proof fn lemma_trimmed_start(s: Seq<char>, at: int)
    requires
        0 <= at <= s.len(),
        forall|j: int| 0 <= j < at ==> is_white(#[trigger] s[j]),
        at < s.len() ==> !is_white(s[at]),
    ensures
        trimmed_start(s) == s.skip(at),
    decreases s.len(),
{
    if at == 0 {
        assert(s.skip(0) =~= s);
    } else {
        assert(is_white(s[0]));
        assert forall|j: int| 0 <= j < at - 1 implies is_white(#[trigger] s.skip(1)[j]) by {
            assert(s.skip(1)[j] == s[j + 1]);
        }
        lemma_trimmed_start(s.skip(1), at - 1);
        assert(s.skip(1).skip(at - 1) =~= s.skip(at));
    }
}

/// White space from a place on, and none before it, is what is cut at the end.
pub proof fn lemma_trimmed_end(s: Seq<char>, at: int)
    requires
        0 <= at <= s.len(),
        forall|j: int| at <= j < s.len() ==> is_white(#[trigger] s[j]),
        at > 0 ==> !is_white(s[at - 1]),
    ensures
        trimmed_end(s) == s.take(at),
    decreases s.len(),
{
    if at == s.len() {
        assert(s.take(at) =~= s);
    } else {
        assert(is_white(s.last()));
        lemma_trimmed_end(s.drop_last(), at);
        assert(s.drop_last().take(at) =~= s.take(at));
    }
}

/// A text is blank just when each of its characters is white space.
pub proof fn lemma_blank(s: Seq<char>)
    ensures
        is_blank(s) <==> forall|j: int| 0 <= j < s.len() ==> is_white(#[trigger] s[j]),
    decreases s.len(),
{
    if s.len() > 0 {
        if is_white(s[0]) {
            let rest = s.skip(1);
            lemma_blank(rest);
            assert(trimmed(s) == trimmed(rest));
            if is_blank(rest) {
                assert forall|j: int| 0 <= j < s.len() implies is_white(#[trigger] s[j]) by {
                    if j > 0 {
                        assert(s[j] == rest[j - 1]);
                    }
                }
            } else {
                let j = choose|j: int| 0 <= j < rest.len() && !is_white(#[trigger] rest[j]);
                assert(!is_white(s[j + 1]));
            }
        } else {
            lemma_trimmed_end_keeps(s);
        }
    }
}

/// Cutting the end of a text that starts with something leaves something.
proof fn lemma_trimmed_end_keeps(s: Seq<char>)
    requires
        s.len() > 0,
        !is_white(s[0]),
    ensures
        trimmed_end(s).len() > 0,
    decreases s.len(),
{
    if is_white(s.last()) {
        assert(s.drop_last()[0] == s[0]);
        lemma_trimmed_end_keeps(s.drop_last());
    }
}

/// Whether a character is white space.
pub fn white(c: char) -> (white: bool)
    ensures
        white == is_white(c),
{
    ('\u{9}' <= c && c <= '\u{d}') || c == ' ' || c == '\u{85}' || c == '\u{a0}' || c == '\u{1680}'
        || ('\u{2000}' <= c && c <= '\u{200a}') || c == '\u{2028}' || c == '\u{2029}' || c
        == '\u{202f}' || c == '\u{205f}' || c == '\u{3000}'
}

/// A text without the white space at its ends.
pub fn trim(s: &str) -> (out: String)
    ensures
        out@ == trimmed(s@),
{
    let chars = chars_of(s);
    let mut from: usize = 0;
    while from < chars.len() && white(chars[from])
        invariant
            from <= chars.len(),
            forall|j: int| 0 <= j < from ==> is_white(#[trigger] chars@[j]),
        decreases chars.len() - from,
    {
        from += 1;
    }
    let mut to: usize = chars.len();
    while to > from && white(chars[to - 1])
        invariant
            from <= to <= chars.len(),
            forall|j: int| to <= j < chars.len() ==> is_white(#[trigger] chars@[j]),
        decreases to,
    {
        to -= 1;
    }
    proof {
        lemma_trimmed_start(s@, from as int);
        let rest = s@.skip(from as int);
        assert forall|j: int| to - from <= j < rest.len() implies is_white(#[trigger] rest[j]) by {
            assert(rest[j] == chars@[j + from]);
        }
        if to > from {
            assert(rest[to - from - 1] == chars@[to - 1]);
        }
        lemma_trimmed_end(rest, to - from);
        assert(rest.take(to - from) =~= chars@.subrange(from as int, to as int));
    }
    text_of(&chars, from, to)
}

/// Whether a text is white space throughout.
pub fn blank(s: &str) -> (all_white: bool)
    ensures
        all_white == is_blank(s@),
{
    proof {
        lemma_blank(s@);
    }
    for c in it: s.chars()
        invariant
            it.seq() == s@,
            is_blank(s@) <==> forall|j: int| 0 <= j < s@.len() ==> is_white(#[trigger] s@[j]),
            forall|j: int| 0 <= j < it.index() ==> is_white(#[trigger] s@[j]),
    {
        if !white(c) {
            assert(!is_white(s@[it.index() as int]));
            return false;
        }
    }
    true
}

/// The lines of a text.
pub fn lines(s: &str) -> (out: Vec<String>)
    ensures
        texts(out@) == lines_of(s@),
{
    let chars = chars_of(s);
    let mut out: Vec<String> = Vec::new();
    let mut start: usize = 0;
    let mut i: usize = 0;
    assert(s@.skip(0) =~= s@);
    while i < chars.len()
        invariant
            start <= i <= chars.len(),
            chars@ == s@,
            forall|j: int| start <= j < i ==> chars@[j] != '\n',
            lines_of(s@) =~= texts(out@) + lines_of(s@.skip(start as int)),
        decreases chars.len() - i,
    {
        if chars[i] == '\n' {
            let ghost rest = s@.skip(start as int);
            proof {
                assert forall|j: int| 0 <= j < i - start implies rest[j] != '\n' by {
                    assert(rest[j] == chars@[j + start]);
                }
                lemma_first_index(rest, '\n', i - start);
                assert(rest.take(i - start) =~= chars@.subrange(start as int, i as int));
                assert(rest.skip(i - start + 1) =~= s@.skip(i + 1));
            }
            let end = if i > start && chars[i - 1] == '\r' {
                i - 1
            } else {
                i
            };
            let line = text_of(&chars, start, end);
            assert(line@ =~= without_return(rest.take(i - start)));
            out.push(line);
            start = i + 1;
        }
        i += 1;
    }
    if start < chars.len() {
        let ghost rest = s@.skip(start as int);
        proof {
            assert forall|j: int| 0 <= j < rest.len() implies rest[j] != '\n' by {
                assert(rest[j] == chars@[j + start]);
            }
            lemma_first_index(rest, '\n', rest.len() as int);
        }
        let line = text_of(&chars, start, chars.len());
        assert(line@ =~= rest);
        out.push(line);
    }
    assert(texts(out@) =~= lines_of(s@));
    out
}

/// One more line is one more filled line, unless it is blank.
pub proof fn lemma_filled_lines_push(lines: Seq<Seq<char>>, line: Seq<char>)
    ensures
        filled_lines(lines.push(line)) == if is_blank(line) {
            filled_lines(lines)
        } else {
            filled_lines(lines).push(trimmed(line))
        },
{
    assert(lines.push(line).drop_last() =~= lines);
}

/// The lines of a text that are not blank, without the white space at their ends.
pub fn trimmed_lines(s: &str) -> (out: Vec<String>)
    ensures
        texts(out@) == content_lines(s@),
{
    let all = lines(s);
    let mut out: Vec<String> = Vec::new();
    let mut i: usize = 0;
    while i < all.len()
        invariant
            i <= all.len(),
            texts(out@) =~= filled_lines(texts(all@).take(i as int)),
        decreases all.len() - i,
    {
        let line = trim(all[i].as_str());
        proof {
            lemma_filled_lines_push(texts(all@).take(i as int), all@[i as int]@);
            assert(texts(all@).take(i + 1) =~= texts(all@).take(i as int).push(all@[i as int]@));
        }
        if !line.as_str().is_empty() {
            out.push(line);
        }
        i += 1;
    }
    assert(texts(all@).take(i as int) =~= texts(all@));
    out
}

/// Those of some lines that are not blank.
pub fn nonblank_lines(all: &Vec<String>) -> (out: Vec<String>)
    ensures
        texts(out@) == nonblank(texts(all@)),
{
    broadcast use lemma_texts_push;

    let ghost lines = texts(all@);
    let mut out: Vec<String> = Vec::new();
    let mut i: usize = 0;
    assert(texts(out@) =~= nonblank(lines.take(0)));
    while i < all.len()
        invariant
            i <= all.len(),
            lines == texts(all@),
            texts(out@) == nonblank(lines.take(i as int)),
        decreases all.len() - i,
    {
        assert(lines.take(i + 1).drop_last() =~= lines.take(i as int));
        assert(lines.take(i + 1).last() == all[i as int]@);
        if !blank(all[i].as_str()) {
            out.push(all[i].clone());
        }
        i += 1;
    }
    assert(lines.take(i as int) =~= lines);
    out
}

/// Some texts with a line feed between each two.
pub open spec fn joined(parts: Seq<Seq<char>>) -> Seq<char>
    decreases parts.len(),
{
    if parts.len() == 0 {
        Seq::empty()
    } else if parts.len() == 1 {
        parts[0]
    } else {
        joined(parts.drop_last()).push('\n') + parts.last()
    }
}

/// Some texts with a line feed between each two.
pub fn join_lines(parts: &Vec<String>) -> (out: String)
    ensures
        out@ == joined(texts(parts@)),
{
    let mut out = String::new();
    let ghost all = texts(parts@);
    let mut i: usize = 0;
    while i < parts.len()
        invariant
            i <= parts.len(),
            all == texts(parts@),
            out@ == joined(all.take(i as int)),
        decreases parts.len() - i,
    {
        assert(all.take(i + 1).drop_last() =~= all.take(i as int));
        assert(all.take(i + 1).last() == parts[i as int]@);
        if i > 0 {
            out.push('\n');
        }
        out.append(parts[i].as_str());
        assert(out@ =~= joined(all.take(i + 1)));
        i += 1;
    }
    assert(all.take(i as int) =~= all);
    out
}

/// The first line of a text.
pub open spec fn first_line_of(s: Seq<char>) -> Seq<char> {
    if lines_of(s).len() == 0 {
        s
    } else {
        lines_of(s)[0]
    }
}

/// The first line of a text holds no line feed.
pub proof fn lemma_first_line(s: Seq<char>)
    ensures
        !first_line_of(s).contains('\n'),
{
    lemma_first_index_bound(s, '\n');
    let end = first_index(s, '\n') as int;
    if s.len() > 0 && end < s.len() {
        let line = s.take(end);
        assert(lines_of(s)[0] == without_return(line));
        assert forall|i: int| 0 <= i < without_return(line).len() implies without_return(line)[i]
            != '\n' by {
            assert(without_return(line)[i] == s[i]);
        }
    }
}

/// A text cut to a number of characters.
pub open spec fn cut(s: Seq<char>, limit: nat) -> Seq<char> {
    if s.len() <= limit {
        s
    } else {
        s.take(limit as int)
    }
}

/// A text cut to a number of characters.
pub fn cut_to(s: &str, limit: usize) -> (out: String)
    ensures
        out@ == cut(s@, limit as nat),
{
    let chars = chars_of(s);
    let end: usize = if chars.len() <= limit {
        chars.len()
    } else {
        limit
    };
    assert(chars@.subrange(0, end as int) =~= cut(s@, limit as nat));
    text_of(&chars, 0, end)
}

/// The first line of a text.
pub fn first_line(s: &str) -> (out: String)
    ensures
        out@ == first_line_of(s@),
{
    let all = lines(s);
    if all.len() == 0 {
        s.to_owned()
    } else {
        assert(texts(all@)[0] == all[0]@);
        all[0].clone()
    }
}

/// Whether a text stands in another from a place on.
pub open spec fn stands_at(s: Seq<char>, part: Seq<char>, at: int) -> bool {
    0 <= at && at + part.len() <= s.len() && s.subrange(at, at + part.len()) == part
}

/// Whether a text stands somewhere in another.
pub open spec fn occurs(s: Seq<char>, part: Seq<char>) -> bool {
    exists|at: int| stands_at(s, part, at)
}

/// Whether characters stand in others from a place on.
fn matches_at(s: &Vec<char>, part: &Vec<char>, at: usize) -> (same: bool)
    requires
        at <= s.len(),
    ensures
        same == stands_at(s@, part@, at as int),
{
    if part.len() > s.len() - at {
        return false;
    }
    let mut i: usize = 0;
    while i < part.len()
        invariant
            i <= part.len(),
            at <= s.len(),
            part.len() <= s.len() - at,
            forall|j: int| 0 <= j < i ==> s@[at + j] == #[trigger] part@[j],
        decreases part.len() - i,
    {
        if s[at + i] != part[i] {
            assert(s@.subrange(at as int, at + part.len())[i as int] != part@[i as int]);
            return false;
        }
        assert(s@[at + i] == part@[i as int]);
        i += 1;
    }
    assert(s@.subrange(at as int, at + part.len()) =~= part@);
    true
}

/// Whether a text stands somewhere in another.
pub fn contains(s: &str, part: &str) -> (found: bool)
    ensures
        found == occurs(s@, part@),
{
    let whole = chars_of(s);
    let needle = chars_of(part);
    let mut at: usize = 0;
    while at < whole.len()
        invariant
            at <= whole.len(),
            whole@ == s@,
            needle@ == part@,
            forall|i: int| 0 <= i < at ==> !stands_at(s@, part@, i),
        decreases whole.len() - at,
    {
        if matches_at(&whole, &needle, at) {
            return true;
        }
        at += 1;
    }
    let last = matches_at(&whole, &needle, at);
    proof {
        if occurs(s@, part@) {
            let i = choose|i: int| stands_at(s@, part@, i);
            assert(i == at);
        }
    }
    last
}

/// Whether a text starts with another.
pub open spec fn begins(s: Seq<char>, prefix: Seq<char>) -> bool {
    stands_at(s, prefix, 0)
}

/// Whether a text ends with another.
pub open spec fn ends(s: Seq<char>, suffix: Seq<char>) -> bool {
    stands_at(s, suffix, s.len() - suffix.len())
}

/// Whether a text ends with another.
pub fn ends_with(s: &str, suffix: &str) -> (found: bool)
    ensures
        found == ends(s@, suffix@),
{
    let whole = chars_of(s);
    let tail = chars_of(suffix);
    if tail.len() > whole.len() {
        return false;
    }
    matches_at(&whole, &tail, whole.len() - tail.len())
}

/// What follows a prefix, if the text starts with it.
pub fn after_prefix(s: &str, prefix: &str) -> (rest: Option<String>)
    ensures
        held(rest) == if begins(s@, prefix@) {
            Some(s@.skip(prefix@.len() as int))
        } else {
            None
        },
{
    let whole = chars_of(s);
    let head = chars_of(prefix);
    if matches_at(&whole, &head, 0) {
        let rest = text_of(&whole, head.len(), whole.len());
        assert(rest@ =~= s@.skip(prefix@.len() as int));
        Some(rest)
    } else {
        None
    }
}

/// What follows the first of a character, or the whole text without one.
pub open spec fn after_first(s: Seq<char>, c: char) -> Seq<char> {
    if first_index(s, c) < s.len() {
        s.skip(first_index(s, c) as int + 1)
    } else {
        s
    }
}

/// Where a character first stands, or how many characters there are.
pub fn find(chars: &Vec<char>, c: char) -> (at: usize)
    ensures
        at == first_index(chars@, c),
        at <= chars.len(),
{
    let mut at: usize = 0;
    while at < chars.len() && chars[at] != c
        invariant
            at <= chars.len(),
            forall|j: int| 0 <= j < at ==> chars@[j] != c,
        decreases chars.len() - at,
    {
        at += 1;
    }
    proof {
        lemma_first_index(chars@, c, at as int);
    }
    at
}

/// What follows the first of a character, or the whole text without one.
pub fn rest_after(s: &str, c: char) -> (out: String)
    ensures
        out@ == after_first(s@, c),
{
    let chars = chars_of(s);
    let at = find(&chars, c);
    if at < chars.len() {
        let out = text_of(&chars, at + 1, chars.len());
        assert(out@ =~= s@.skip(at + 1));
        out
    } else {
        s.to_owned()
    }
}

/// The lower case of an ASCII letter; any other character stays.
pub open spec fn ascii_lower(c: char) -> char {
    if 'A' <= c <= 'Z' {
        ((c as u32) + 32) as char
    } else {
        c
    }
}

/// A text with its ASCII letters in lower case.
pub open spec fn ascii_lowered(s: Seq<char>) -> Seq<char> {
    s.map_values(|c: char| ascii_lower(c))
}

/// Whether a text is ASCII throughout.
pub open spec fn all_ascii(s: Seq<char>) -> bool {
    forall|i: int| 0 <= i < s.len() ==> #[trigger] s[i] <= '\u{7f}'
}

/// A text with its ASCII letters in lower case.
pub fn to_ascii_lower(s: &str) -> (out: String)
    ensures
        out@ == ascii_lowered(s@),
{
    let mut out = String::new();
    for c in it: s.chars()
        invariant
            it.seq() == s@,
            out@ =~= ascii_lowered(s@.take(it.index() as int)),
    {
        let lower = if 'A' <= c && c <= 'Z' {
            ((c as u8) + 32) as char
        } else {
            c
        };
        assert(lower == ascii_lower(c));
        assert(s@.take(it.index() + 1) =~= s@.take(it.index() as int).push(c));
        out.push(lower);
    }
    assert(s@.take(s@.len() as int) =~= s@);
    out
}

/// Whether two texts are the same but for the case of ASCII letters.
pub fn same_ignoring_case(a: &str, b: &str) -> (same: bool)
    ensures
        same == (ascii_lowered(a@) == ascii_lowered(b@)),
{
    let x = to_ascii_lower(a);
    let y = to_ascii_lower(b);
    same_text(x.as_str(), y.as_str())
}

/// What `str::to_lowercase` makes of a text that is not all ASCII.
pub uninterp spec fn unicode_lowered(s: Seq<char>) -> Seq<char>;

/// A text in lower case.
pub open spec fn lowered(s: Seq<char>) -> Seq<char> {
    if all_ascii(s) {
        ascii_lowered(s)
    } else {
        unicode_lowered(s)
    }
}

/// Calls `str::to_lowercase`. Of ASCII text the letters from A to Z become
/// those from a to z and nothing else changes; what other text becomes, by
/// Unicode's rules, depends on the text alone.
#[verifier::external_body]
pub(crate) fn lowercase(s: &str) -> (out: String)
    ensures
        all_ascii(s@) ==> out@ == ascii_lowered(s@),
        !all_ascii(s@) ==> out@ == unicode_lowered(s@),
{
    s.to_lowercase()
}

/// Calls `String::from_utf8`, which takes bytes for a text just when they are
/// valid UTF-8; the text is what they encode.
#[verifier::external_body]
pub(crate) fn text_from_bytes(bytes: Vec<u8>) -> (out: Option<String>)
    ensures
        held(out) == if valid_utf8(bytes@) {
            Some(decode_utf8(bytes@))
        } else {
            None
        },
{
    String::from_utf8(bytes).ok()
}

} // verus!
