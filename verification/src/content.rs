//! What a JSON value says: its text, its time and the tools it calls.
//!
//! These rules are the library's own. A timestamp is an integer number of
//! milliseconds; one written as text, or with a fraction, counts as unknown. The
//! text of a content is that of its parts, and only a part of the type `tool_use`
//! counts as a tool call.
use crate::json;
use crate::json::{Json, Tree};
use crate::text;
use crate::types;
use crate::types::{InvocationView, NormalizedInvocation};
use vstd::prelude::*;

pub mod laws;

verus! {

/// The text of one part of a content array: the part itself, or what its
/// `text` field holds.
pub open spec fn part_text(part: Tree) -> Option<Seq<char>> {
    match part {
        Tree::Text(s) => Some(s),
        _ => part.text_at("text"@),
    }
}

/// The texts of the parts that have one.
pub open spec fn part_texts(parts: Seq<Tree>) -> Seq<Seq<char>>
    decreases parts.len(),
{
    if parts.len() == 0 {
        Seq::empty()
    } else {
        let before = part_texts(parts.drop_last());
        match part_text(parts.last()) {
            Some(s) => before.push(s),
            None => before,
        }
    }
}

/// The text of a content value: a text is itself, and an array is its parts
/// with a line feed between each two. Anything else has none.
pub open spec fn flat(value: Tree) -> Seq<char> {
    match value {
        Tree::Text(s) => s,
        Tree::Array(parts) => text::joined(part_texts(parts)),
        _ => Seq::empty(),
    }
}

/// The text of a content value.
pub fn flatten_content(value: &Json) -> (out: String)
    ensures
        out@ == flat(value@),
{
    broadcast use json::group_trees;

    match value {
        Json::Text(s) => s.clone(),
        Json::Array(parts) => {
            let ghost trees = json::trees_of(parts@);
            let mut out: Vec<String> = Vec::new();
            let mut i: usize = 0;
            while i < parts.len()
                invariant
                    i <= parts.len(),
                    trees == json::trees_of(parts@),
                    text::texts(out@) =~= part_texts(trees.take(i as int)),
                decreases parts.len() - i,
            {
                assert(trees.take(i + 1).drop_last() =~= trees.take(i as int));
                assert(trees.take(i + 1).last() == parts[i as int]@);
                let found = match &parts[i] {
                    Json::Text(s) => Some(s.as_str()),
                    other => other.str_at("text"),
                };
                assert(text::seen(found) == part_text(parts[i as int]@));
                if let Some(s) = found {
                    out.push(s.to_owned());
                }
                i += 1;
            }
            assert(trees.take(i as int) =~= trees);
            text::join_lines(&out)
        },
        _ => String::new(),
    }
}

/// The text of the content under a key.
pub open spec fn flat_at(value: Tree, key: Seq<char>) -> Seq<char> {
    match value.field(key) {
        Some(inner) => flat(inner),
        None => Seq::empty(),
    }
}

/// The timestamp of a value: an integer counts milliseconds.
pub open spec fn stamp(value: Tree) -> Option<i64> {
    value.integer()
}

/// The timestamp of a value that may be absent.
pub open spec fn stamp_in(value: Option<Tree>) -> Option<i64> {
    match value {
        Some(tree) => stamp(tree),
        None => None,
    }
}

/// The timestamp under a key.
pub open spec fn stamp_at(value: Tree, key: Seq<char>) -> Option<i64> {
    stamp_in(value.field(key))
}

/// The timestamp of a value.
pub fn parse_timestamp(value: &Json) -> (out: Option<i64>)
    ensures
        out == stamp(value@),
{
    value.as_i64()
}

/// The timestamp of a value that may be absent.
pub fn timestamp_in(value: Option<&Json>) -> (out: Option<i64>)
    ensures
        out == stamp_in(json::seen(value)),
{
    match value {
        Some(inner) => parse_timestamp(inner),
        None => None,
    }
}

/// The text of a value that may be absent.
pub fn string_in(value: Option<&Json>) -> (out: Option<String>)
    ensures
        text::held(out) == json::text_in(json::seen(value)),
{
    match value {
        Some(inner) => match inner.as_str() {
            Some(s) => Some(s.to_owned()),
            None => None,
        },
        None => None,
    }
}

/// A value that may be absent, as one of its own.
pub fn copy_in(value: Option<&Json>) -> (out: Option<Json>)
    ensures
        types::held_tree(out) == json::seen(value),
{
    match value {
        Some(inner) => Some(inner.copy()),
        None => None,
    }
}

/// The tool call that a content block is, if it is one: it has the type
/// `tool_use` and a name.
pub open spec fn block_call(block: Tree) -> Option<InvocationView> {
    if block.text_at("type"@) == Some("tool_use"@) {
        match block.text_at("name"@) {
            Some(name) => Some(
                InvocationView {
                    kind: "tool"@,
                    name,
                    raw_name: None,
                    call_id: block.text_at("id"@),
                    arguments: block.field("input"@),
                },
            ),
            None => None,
        }
    } else {
        None
    }
}

/// The tool calls among content blocks.
pub open spec fn block_calls(blocks: Seq<Tree>) -> Seq<InvocationView>
    decreases blocks.len(),
{
    if blocks.len() == 0 {
        Seq::empty()
    } else {
        let before = block_calls(blocks.drop_last());
        match block_call(blocks.last()) {
            Some(call) => before.push(call),
            None => before,
        }
    }
}

/// The tool calls in a content value.
pub open spec fn content_calls(value: Tree) -> Seq<InvocationView> {
    match value {
        Tree::Array(blocks) => block_calls(blocks),
        _ => Seq::empty(),
    }
}

/// The tool calls in a content value.
pub fn extract_invocations_from_content_blocks(value: &Json) -> (calls: Vec<NormalizedInvocation>)
    ensures
        types::invocations_of(calls@) == content_calls(value@),
{
    broadcast use json::group_trees;

    let mut out: Vec<NormalizedInvocation> = Vec::new();
    if let Json::Array(blocks) = value {
        let ghost trees = json::trees_of(blocks@);
        let mut i: usize = 0;
        assert(types::invocations_of(out@) =~= block_calls(trees.take(0)));
        while i < blocks.len()
            invariant
                i <= blocks.len(),
                trees == json::trees_of(blocks@),
                types::invocations_of(out@) =~= block_calls(trees.take(i as int)),
            decreases blocks.len() - i,
        {
            assert(trees.take(i + 1).drop_last() =~= trees.take(i as int));
            assert(trees.take(i + 1).last() == blocks[i as int]@);
            let block = &blocks[i];
            if is_text(block.get("type"), "tool_use") {
                if let Some(name) = block.str_at("name") {
                    let call = NormalizedInvocation {
                        kind: "tool".to_owned(),
                        name: name.to_owned(),
                        raw_name: None,
                        call_id: string_in(block.get("id")),
                        arguments: copy_in(block.get("input")),
                    };
                    assert(call@ == block_call(block@)->Some_0);
                    out.push(call);
                }
            }
            i += 1;
        }
        assert(trees.take(i as int) =~= trees);
    }
    out
}

/// Whether a value that may be absent is a given text.
pub fn is_text(value: Option<&Json>, wanted: &str) -> (is: bool)
    ensures
        is == (json::text_in(json::seen(value)) == Some(wanted@)),
{
    match value {
        Some(inner) => match inner.as_str() {
            Some(s) => text::same_text(s, wanted),
            None => false,
        },
        None => false,
    }
}

} // verus!
