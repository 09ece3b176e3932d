//! What holds of every content value.
use crate::content;
use crate::json::Tree;
use crate::text;
use crate::types::InvocationView;
use vstd::prelude::*;

verus! {

proof fn lemma_texts_add(a: Seq<Tree>, b: Seq<Tree>)
    ensures
        content::part_texts(a + b) == content::part_texts(a) + content::part_texts(b),
    decreases b.len(),
{
    if b.len() == 0 {
        assert(a + b =~= a);
        assert(content::part_texts(a) + content::part_texts(b) =~= content::part_texts(a));
    } else {
        lemma_texts_add(a, b.drop_last());
        assert((a + b).drop_last() =~= a + b.drop_last());
        assert((a + b).last() == b.last());
        assert(content::part_texts(a + b) =~= content::part_texts(a) + content::part_texts(b));
    }
}

/// The parts of a content are taken one by one and in order: a text as it stands,
/// an object by its `text`, and anything else not at all.
pub proof fn law_parts_are_taken_one_by_one(before: Seq<Tree>, part: Tree, behind: Seq<Tree>)
    ensures
        content::part_texts(before + seq![part] + behind) == content::part_texts(before) + (
        match part {
            Tree::Text(said) => seq![said],
            _ => match part.text_at("text"@) {
                Some(said) => seq![said],
                None => Seq::empty(),
            },
        }) + content::part_texts(behind),
{
    lemma_texts_add(before + seq![part], behind);
    lemma_texts_add(before, seq![part]);
    assert(seq![part].drop_last() =~= Seq::empty());
    assert(content::part_texts(Seq::empty()) =~= Seq::empty());
    let one = content::part_texts(seq![part]);
    assert(one =~= match part {
        Tree::Text(said) => seq![said],
        _ => match part.text_at("text"@) {
            Some(said) => seq![said],
            None => Seq::empty(),
        },
    });
}

/// The text of a content is itself where it is a text, and that of its parts with
/// a line feed between where it is an array; two arrays one behind the other say
/// what each says. Anything else says nothing.
pub proof fn law_content_says_what_its_parts_say(
    said: Seq<char>,
    texts: Seq<Seq<char>>,
    parts: Seq<Tree>,
    other: Tree,
)
    requires
        parts.len() == texts.len(),
        forall|i: int|
            0 <= i < parts.len() ==> #[trigger] parts[i] == Tree::Text(texts[i])
                || parts[i].text_at("text"@) == Some(texts[i]),
        !(other is Text),
        !(other is Array),
    ensures
        content::flat(Tree::Text(said)) == said,
        content::flat(Tree::Array(parts)) == text::joined(texts),
        content::flat(other).len() == 0,
{
    lemma_all_texts(texts, parts);
}

proof fn lemma_all_texts(texts: Seq<Seq<char>>, parts: Seq<Tree>)
    requires
        parts.len() == texts.len(),
        forall|i: int|
            0 <= i < parts.len() ==> #[trigger] parts[i] == Tree::Text(texts[i])
                || parts[i].text_at("text"@) == Some(texts[i]),
    ensures
        content::part_texts(parts) == texts,
    decreases parts.len(),
{
    if parts.len() > 0 {
        let a = texts.drop_last();
        let b = parts.drop_last();
        assert forall|i: int| 0 <= i < b.len() implies #[trigger] b[i] == Tree::Text(a[i])
            || b[i].text_at("text"@) == Some(a[i]) by {
            assert(b[i] == parts[i]);
        }
        lemma_all_texts(a, b);
        assert(parts[parts.len() - 1] == parts.last());
        assert(content::part_texts(parts) =~= texts);
    }
}

/// A timestamp is an integer under its key; a text or a fraction is none.
pub proof fn law_timestamps_are_integers(tree: Tree, key: Seq<char>)
    ensures
        content::stamp_at(tree, key) == match tree.field(key) {
            Some(Tree::UInt(n)) => if n <= i64::MAX {
                Some(n as i64)
            } else {
                None
            },
            Some(Tree::NegInt(n)) => Some(n),
            _ => None,
        },
        content::stamp_in(None) is None,
        tree.field(key) matches Some(value) ==> content::stamp_in(Some(value)) == content::stamp_at(
            tree,
            key,
        ),
        content::flat_at(tree, key) == match tree.field(key) {
            Some(value) => content::flat(value),
            None => Seq::empty(),
        },
{
}

proof fn lemma_calls_add(a: Seq<Tree>, b: Seq<Tree>)
    ensures
        content::block_calls(a + b) == content::block_calls(a) + content::block_calls(b),
    decreases b.len(),
{
    if b.len() == 0 {
        assert(a + b =~= a);
        assert(content::block_calls(a) + content::block_calls(b) =~= content::block_calls(a));
    } else {
        lemma_calls_add(a, b.drop_last());
        assert((a + b).drop_last() =~= a + b.drop_last());
        assert((a + b).last() == b.last());
        assert(content::block_calls(a + b) =~= content::block_calls(a) + content::block_calls(b));
    }
}

/// The blocks of a content are looked at one by one and in order: one of the type
/// `tool_use` with a name is a call of the tool of that name, with its `id` and
/// `input`, and no other is.
pub proof fn law_blocks_are_taken_one_by_one(before: Seq<Tree>, block: Tree, behind: Seq<Tree>)
    ensures
        content::content_calls(Tree::Array(before + seq![block] + behind)) == content::content_calls(
            Tree::Array(before),
        ) + (if block.text_at("type"@) == Some("tool_use"@) && block.text_at("name"@) is Some {
            seq![
                InvocationView {
                    kind: "tool"@,
                    name: block.text_at("name"@)->Some_0,
                    raw_name: None,
                    call_id: block.text_at("id"@),
                    arguments: block.field("input"@),
                },
            ]
        } else {
            Seq::empty()
        }) + content::content_calls(Tree::Array(behind)),
        !(block is Array) ==> content::content_calls(block).len() == 0,
{
    lemma_calls_add(before + seq![block], behind);
    lemma_calls_add(before, seq![block]);
    assert(seq![block].drop_last() =~= Seq::empty());
    assert(content::block_calls(Seq::empty()) =~= Seq::empty());
    let one = content::block_calls(seq![block]);
    assert(one =~= match content::block_call(block) {
        Some(call) => seq![call],
        None => Seq::empty(),
    });
}

} // verus!
