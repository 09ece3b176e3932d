//! What holds of every text.
use crate::text;
use vstd::prelude::*;

verus! {

/// Whether each character of a text is white space.
pub open spec fn all_white(s: Seq<char>) -> bool {
    forall|i: int| 0 <= i < s.len() ==> text::is_white(#[trigger] s[i])
}

proof fn lemma_start(s: Seq<char>)
    ensures
        text::trimmed_start(s).len() <= s.len(),
        text::trimmed_start(s) == s.skip(s.len() - text::trimmed_start(s).len()),
        all_white(s.take(s.len() - text::trimmed_start(s).len())),
        text::trimmed_start(s).len() > 0 ==> !text::is_white(text::trimmed_start(s)[0]),
    decreases s.len(),
{
    if s.len() > 0 && text::is_white(s[0]) {
        let rest = s.skip(1);
        lemma_start(rest);
        let out = text::trimmed_start(s);
        assert(out =~= s.skip(s.len() - out.len()));
        let cut = s.take(s.len() - out.len());
        assert forall|i: int| 0 <= i < cut.len() implies text::is_white(#[trigger] cut[i]) by {
            if i > 0 {
                assert(cut[i] == rest.take(rest.len() - out.len())[i - 1]);
            }
        }
    } else {
        assert(s.skip(0) =~= s);
    }
}

proof fn lemma_end(s: Seq<char>)
    ensures
        text::trimmed_end(s).len() <= s.len(),
        text::trimmed_end(s) == s.take(text::trimmed_end(s).len() as int),
        all_white(s.skip(text::trimmed_end(s).len() as int)),
        text::trimmed_end(s).len() > 0 ==> !text::is_white(text::trimmed_end(s).last()),
    decreases s.len(),
{
    if s.len() > 0 && text::is_white(s.last()) {
        let rest = s.drop_last();
        lemma_end(rest);
        let out = text::trimmed_end(s);
        assert(out =~= s.take(out.len() as int));
        let cut = s.skip(out.len() as int);
        assert forall|i: int| 0 <= i < cut.len() implies text::is_white(#[trigger] cut[i]) by {
            if i < cut.len() - 1 {
                assert(cut[i] == rest.skip(out.len() as int)[i]);
            }
        }
    } else {
        assert(s.take(s.len() as int) =~= s);
    }
}

/// White space around a text is all that trimming takes away: what is left
/// stands in the text with nothing but white space before and behind it, and
/// neither starts nor ends with any.
pub proof fn law_trimming_takes_white_space_only(s: Seq<char>)
    ensures
        exists|head: Seq<char>, tail: Seq<char>|
            all_white(head) && all_white(tail) && s == #[trigger] (head + text::trimmed(s) + tail),
        text::trimmed(s).len() > 0 ==> !text::is_white(text::trimmed(s)[0]) && !text::is_white(
            text::trimmed(s).last(),
        ),
{
    let middle = text::trimmed_start(s);
    let out = text::trimmed(s);
    lemma_start(s);
    lemma_end(middle);
    let head = s.take(s.len() - middle.len());
    let tail = middle.skip(out.len() as int);
    assert(s =~= head + out + tail);
    if out.len() > 0 {
        assert(out[0] == middle[0]);
    }
}

/// A text is blank just when each of its characters is white space, and a text
/// without white space around it is not changed by trimming.
pub proof fn law_blank_texts_are_white_space(s: Seq<char>)
    ensures
        text::is_blank(s) <==> all_white(s),
        s.len() > 0 && !text::is_white(s[0]) && !text::is_white(s.last()) ==> text::trimmed(s) == s,
{
    text::lemma_blank(s);
}

/// White space is the tab and the controls behind it, the space, and Unicode's
/// other spaces and separators; no letter, digit or mark is.
pub proof fn law_white_space(c: char)
    ensures
        text::is_white(' ') && text::is_white('\t') && text::is_white('\n') && text::is_white('\r'),
        '!' <= c <= '~' ==> !text::is_white(c),
        c < '\t' || ('\r' < c && c < ' ') ==> !text::is_white(c),
        c > '~' ==> (text::is_white(c) <==> c == '\u{85}' || c == '\u{a0}' || c == '\u{1680}' || (
        '\u{2000}' <= c && c <= '\u{200a}') || c == '\u{2028}' || c == '\u{2029}' || c
            == '\u{202f}' || c == '\u{205f}' || c == '\u{3000}'),
        '\t' <= c && c <= '\r' ==> text::is_white(c),
{
}

/// A line feed ends a line: a text with one is the line before it, without a
/// carriage return at its end, and the lines behind it. A text without one is one
/// line as it stands, and the empty text has none.
pub proof fn law_lines_end_with_line_feeds(line: Seq<char>, rest: Seq<char>)
    requires
        !line.contains('\n'),
    ensures
        text::lines_of(line + seq!['\n'] + rest) == seq![
            if line.len() > 0 && line.last() == '\r' {
                line.drop_last()
            } else {
                line
            },
        ] + text::lines_of(rest),
        line.len() > 0 ==> text::lines_of(line) == seq![line],
        text::lines_of(Seq::empty()) == Seq::<Seq<char>>::empty(),
{
    let whole = line + seq!['\n'] + rest;
    assert forall|j: int| 0 <= j < line.len() implies line[j] != '\n' by {
        assert(line.contains(line[j]));
    }
    text::lemma_first_index(whole, '\n', line.len() as int);
    text::lemma_first_index(line, '\n', line.len() as int);
    assert(whole.take(line.len() as int) =~= line);
    assert(whole.skip(line.len() as int + 1) =~= rest);
}

/// The first line of a text is what stands before its first line feed, without a
/// carriage return at its end, or the whole text where there is none.
pub proof fn law_the_first_line_comes_first(line: Seq<char>, rest: Seq<char>)
    requires
        !line.contains('\n'),
    ensures
        text::first_line_of(line) == line,
        text::first_line_of(line + seq!['\n'] + rest) == if line.len() > 0 && line.last() == '\r' {
            line.drop_last()
        } else {
            line
        },
{
    law_lines_end_with_line_feeds(line, rest);
    if line.len() == 0 {
        assert(line =~= Seq::empty());
    }
}

/// Of some lines, those that are not blank are kept, each once and in order.
pub proof fn law_blank_lines_are_left_out(lines: Seq<Seq<char>>)
    ensures
        text::nonblank(lines) == lines.filter(|line: Seq<char>| !all_white(line)),
        text::filled_lines(lines) == lines.filter(|line: Seq<char>| !all_white(line)).map_values(
            |line: Seq<char>| text::trimmed(line),
        ),
    decreases lines.len(),
{
    let keep = |line: Seq<char>| !all_white(line);
    let trim = |line: Seq<char>| text::trimmed(line);
    reveal(Seq::filter);
    if lines.len() == 0 {
        assert(lines.filter(keep).map_values(trim) =~= Seq::empty());
    } else {
        let before = lines.drop_last();
        law_blank_lines_are_left_out(before);
        law_blank_texts_are_white_space(lines.last());
        let kept = before.filter(keep);
        assert(kept.push(lines.last()).map_values(trim) =~= kept.map_values(trim).push(
            text::trimmed(lines.last()),
        ));
    }
}

/// Joined texts have a line feed between each two of them and nothing else; one
/// text alone is itself.
pub proof fn law_joining_puts_a_line_feed_between(a: Seq<Seq<char>>, b: Seq<Seq<char>>)
    ensures
        a.len() > 0 && b.len() > 0 ==> text::joined(a + b) == text::joined(a) + seq!['\n']
            + text::joined(b),
        a.len() == 1 ==> text::joined(a) == a[0],
        a.len() == 0 ==> text::joined(a).len() == 0,
    decreases b.len(),
{
    if a.len() > 0 && b.len() > 0 {
        let all = a + b;
        assert(all.drop_last() =~= a + b.drop_last());
        assert(all.last() == b.last());
        if b.len() == 1 {
            assert(a + b.drop_last() =~= a);
            assert(text::joined(all) =~= text::joined(a) + seq!['\n'] + text::joined(b));
        } else {
            law_joining_puts_a_line_feed_between(a, b.drop_last());
            assert(text::joined(all) =~= text::joined(a) + seq!['\n'] + text::joined(b));
        }
    }
}

/// Cutting a text leaves its first characters, as many as the limit allows.
pub proof fn law_cutting_keeps_the_start(s: Seq<char>, limit: nat)
    ensures
        text::cut(s, limit).len() == if s.len() < limit {
            s.len()
        } else {
            limit
        },
        forall|i: int| 0 <= i < text::cut(s, limit).len() ==> #[trigger] text::cut(s, limit)[i] == s[i],
{
}

/// What follows the first of a character is all behind it; a text without the
/// character is left whole.
pub proof fn law_the_rest_follows_the_first(head: Seq<char>, c: char, tail: Seq<char>)
    requires
        !head.contains(c),
    ensures
        text::after_first(head + seq![c] + tail, c) == tail,
        text::after_first(head, c) == head,
{
    let whole = head + seq![c] + tail;
    assert forall|j: int| 0 <= j < head.len() implies head[j] != c by {
        assert(head.contains(head[j]));
    }
    text::lemma_first_index(whole, c, head.len() as int);
    text::lemma_first_index(head, c, head.len() as int);
    assert(whole.skip(head.len() as int + 1) =~= tail);
}

/// A text stands in another just when the other is it with something before and
/// behind.
pub proof fn law_a_part_has_a_place(s: Seq<char>, part: Seq<char>)
    ensures
        text::occurs(s, part) <==> exists|head: Seq<char>, tail: Seq<char>|
            s == #[trigger] (head + part + tail),
        text::begins(s, part) <==> exists|tail: Seq<char>| s == #[trigger] (part + tail),
        text::ends(s, part) <==> exists|head: Seq<char>| s == #[trigger] (head + part),
{
    if text::occurs(s, part) {
        let at = choose|at: int| text::stands_at(s, part, at);
        let head = s.take(at);
        let tail = s.skip(at + part.len());
        assert(s =~= (head + s.subrange(at, at + part.len())) + tail);
    }
    if exists|head: Seq<char>, tail: Seq<char>| s == #[trigger] (head + part + tail) {
        let (head, tail) = choose|head: Seq<char>, tail: Seq<char>|
            s == #[trigger] (head + part + tail);
        assert(s.subrange(head.len() as int, head.len() as int + part.len()) =~= part);
        assert(text::stands_at(s, part, head.len() as int));
    }
    if text::begins(s, part) {
        assert(s =~= s.subrange(0, part.len() as int) + s.skip(part.len() as int));
    }
    if exists|tail: Seq<char>| s == #[trigger] (part + tail) {
        assert(s.subrange(0, part.len() as int) =~= part);
    }
    if text::ends(s, part) {
        let at = s.len() - part.len();
        assert(s =~= s.take(at) + s.subrange(at, at + part.len()));
    }
    if exists|head: Seq<char>| s == #[trigger] (head + part) {
        let at = s.len() - part.len();
        assert(s.subrange(at, at + part.len()) =~= part);
    }
}

/// Lower case changes the letters from A to Z, each to the one 32 code points on,
/// and nothing else; text in another case counts as the same.
pub proof fn law_lower_case(s: Seq<char>, at: int)
    requires
        0 <= at < s.len(),
    ensures
        text::ascii_lowered(s).len() == s.len(),
        'A' <= s[at] <= 'Z' ==> text::ascii_lowered(s)[at] as int == s[at] as int + 32,
        !('A' <= s[at] <= 'Z') ==> text::ascii_lowered(s)[at] == s[at],
        text::ascii_lowered(text::ascii_lowered(s)) == text::ascii_lowered(s),
        (forall|i: int| 0 <= i < s.len() ==> #[trigger] s[i] <= '\u{7f}') ==> text::lowered(s)
            == text::ascii_lowered(s),
{
    assert(text::ascii_lowered(text::ascii_lowered(s)) =~= text::ascii_lowered(s));
}

/// Of two texts the first that is there, or that is not empty, is taken.
pub proof fn law_the_first_text_is_taken(
    first: Seq<char>,
    second: Option<Seq<char>>,
    other: Seq<char>,
)
    ensures
        text::text_or(Some(first), second) == Some(first),
        text::text_or(None, second) == second,
        first.len() > 0 ==> text::filled_or(first, other) == first,
        first.len() == 0 ==> text::filled_or(first, other) == other,
{
}

} // verus!
