//! Reading JSON text.
//!
//! `serde_json` reads the text. What it hands back is taken apart layer by
//! layer into the library's own `Json`.
use crate::json;
use crate::json::{Json, Member, Tree};
use crate::text;
use vstd::prelude::*;

verus! {

/// `serde_json`'s own JSON value, which is only carried and taken apart.
#[verifier::external_type_specification]
#[verifier::external_body]
pub struct ExternalValue(serde_json::Value);

/// What `serde_json` says of a text that is no JSON document.
#[verifier::external_type_specification]
#[verifier::external_body]
pub struct ExternalError(serde_json::Error);

/// The document that `serde_json::from_str` reads from a text, if it reads one.
pub uninterp spec fn json_document(text: Seq<char>) -> Option<Tree>;

/// What a `serde_json::Value` holds.
pub uninterp spec fn value_tree(value: serde_json::Value) -> Tree;

/// The outermost layer of a `serde_json::Value`.
pub enum Layer {
    Null,
    Bool(bool),
    UInt(u64),
    NegInt(i64),
    Float(u64),
    Text(String),
    Array(Vec<serde_json::Value>),
    Object(Vec<(String, serde_json::Value)>),
}

/// What the items of an array layer hold.
pub open spec fn item_trees(items: Seq<serde_json::Value>) -> Seq<Tree> {
    Seq::new(items.len(), |i: int| value_tree(items[i]))
}

/// What the entries of an object layer hold.
pub open spec fn entry_trees(entries: Seq<(String, serde_json::Value)>) -> Map<Seq<char>, Tree>
    decreases entries.len(),
{
    if entries.len() == 0 {
        Map::empty()
    } else {
        entry_trees(entries.subrange(1, entries.len() as int)).insert(
            entries[0].0@,
            value_tree(entries[0].1),
        )
    }
}

/// No key stands twice.
pub open spec fn distinct_keys(entries: Seq<(String, serde_json::Value)>) -> bool {
    forall|i: int, j: int| 0 <= i < j < entries.len() ==> entries[i].0@ != entries[j].0@
}

/// What a layer holds.
pub open spec fn layer_tree(layer: Layer) -> Tree {
    match layer {
        Layer::Null => Tree::Null,
        Layer::Bool(b) => Tree::Bool(b),
        Layer::UInt(n) => Tree::UInt(n),
        Layer::NegInt(n) => Tree::NegInt(n),
        Layer::Float(bits) => Tree::Float(bits),
        Layer::Text(s) => Tree::Text(s@),
        Layer::Array(items) => Tree::Array(item_trees(items@)),
        Layer::Object(entries) => Tree::Object(entry_trees(entries@)),
    }
}

/// What a document that may be absent holds.
pub open spec fn held(json: Option<Json>) -> Option<Tree> {
    match json {
        Some(value) => Some(value@),
        None => None,
    }
}

/// Calls `serde_json::from_str` for a `serde_json::Value`. Whether it reads the
/// text, and what the value then holds, depends on the text alone.
#[verifier::external_body]
fn read_value(text: &str) -> (value: Result<serde_json::Value, serde_json::Error>)
    ensures
        value matches Ok(read) ==> json_document(text@) == Some(value_tree(read)),
        value is Err ==> json_document(text@) is None,
{
    serde_json::from_str(text)
}

/// Takes the outermost variant of a `serde_json::Value` apart, a number by
/// `Number::as_u64`, `as_i64` and `as_f64`. The layer holds what the value held,
/// and no key of an object stands in it twice.
#[verifier::external_body]
fn open_value(value: serde_json::Value) -> (layer: Layer)
    ensures
        layer_tree(layer) == value_tree(value),
        layer matches Layer::Object(entries) ==> distinct_keys(entries@),
{
    match value {
        serde_json::Value::Null => Layer::Null,
        serde_json::Value::Bool(b) => Layer::Bool(b),
        serde_json::Value::Number(n) => match (n.as_u64(), n.as_i64()) {
            (Some(natural), _) => Layer::UInt(natural),
            (None, Some(integer)) => Layer::NegInt(integer),
            (None, None) => Layer::Float(n.as_f64().unwrap_or_default().to_bits()),
        },
        serde_json::Value::String(s) => Layer::Text(s),
        serde_json::Value::Array(items) => Layer::Array(items),
        serde_json::Value::Object(map) => Layer::Object(map.into_iter().collect()),
    }
}

/// With no key twice, each entry is a field of what the entries hold.
proof fn lemma_entry_field(entries: Seq<(String, serde_json::Value)>, at: int)
    requires
        0 <= at < entries.len(),
        distinct_keys(entries),
    ensures
        entry_trees(entries).dom().finite(),
        entry_trees(entries).contains_key(entries[at].0@),
        entry_trees(entries)[entries[at].0@] == value_tree(entries[at].1),
    decreases entries.len(),
{
    let rest = entries.subrange(1, entries.len() as int);
    if at > 0 {
        assert(distinct_keys(rest)) by {
            assert forall|i: int, j: int| 0 <= i < j < rest.len() implies rest[i].0@ != rest[j].0@ by {
                assert(rest[i] == entries[i + 1]);
                assert(rest[j] == entries[j + 1]);
            }
        }
        lemma_entry_field(rest, at - 1);
        assert(rest[at - 1] == entries[at]);
        assert(entries[0].0@ != entries[at].0@);
    } else {
        lemma_entries_finite(rest);
    }
}

/// What entries hold are finitely many fields.
proof fn lemma_entries_finite(entries: Seq<(String, serde_json::Value)>)
    ensures
        entry_trees(entries).dom().finite(),
    decreases entries.len(),
{
    if entries.len() > 0 {
        lemma_entries_finite(entries.subrange(1, entries.len() as int));
    }
}

/// Members that agree with entries one by one hold what they hold.
proof fn lemma_fields_of_entries(
    members: Seq<Member>,
    entries: Seq<(String, serde_json::Value)>,
)
    requires
        members.len() == entries.len(),
        forall|j: int|
            0 <= j < members.len() ==> (#[trigger] members[j]).key@ == entries[j].0@
                && members[j].value@ == value_tree(entries[j].1),
    ensures
        json::fields_of(members) == entry_trees(entries),
    decreases members.len(),
{
    if members.len() > 0 {
        let x = members.subrange(1, members.len() as int);
        let y = entries.subrange(1, entries.len() as int);
        assert forall|j: int| 0 <= j < x.len() implies (#[trigger] x[j]).key@ == y[j].0@
            && x[j].value@ == value_tree(y[j].1) by {
            assert(x[j] == members[j + 1]);
        }
        lemma_fields_of_entries(x, y);
        assert(members[0].key@ == entries[0].0@);
    }
}

/// The value as one of the library's own.
fn json_of(value: serde_json::Value) -> (json: Json)
    ensures
        json@ == value_tree(value),
    decreases value_tree(value),
{
    match open_value(value) {
        Layer::Null => Json::Null,
        Layer::Bool(b) => Json::Bool(b),
        Layer::UInt(n) => Json::UInt(n),
        Layer::NegInt(n) => Json::NegInt(n),
        Layer::Float(bits) => Json::Float(bits),
        Layer::Text(s) => Json::Text(s),
        Layer::Array(items) => {
            let ghost whole = items@;
            let mut out: Vec<Json> = Vec::new();
            for item in it: items
                invariant
                    it.seq() == whole,
                    value_tree(value) == Tree::Array(item_trees(whole)),
                    json::trees_of(out@) =~= item_trees(whole).take(it.index() as int),
            {
                broadcast use json::group_trees;

                assert(item_trees(whole)[it.index() as int] == value_tree(item));
                assert(decreases_to!(value_tree(value) => value_tree(value)->Array_0));
                assert(decreases_to!(item_trees(whole) => item_trees(whole)[it.index() as int]));
                out.push(json_of(item));
            }
            assert(json::trees_of(out@) =~= item_trees(whole));
            Json::Array(out)
        },
        Layer::Object(entries) => {
            let ghost whole = entries@;
            let mut out: Vec<Member> = Vec::new();
            for entry in it: entries
                invariant
                    it.seq() == whole,
                    distinct_keys(whole),
                    value_tree(value) == Tree::Object(entry_trees(whole)),
                    out.len() == it.index(),
                    forall|j: int|
                        0 <= j < it.index() ==> (#[trigger] out[j]).key@ == whole[j].0@
                            && out[j].value@ == value_tree(whole[j].1),
            {
                proof {
                    lemma_entry_field(whole, it.index() as int);
                }
                let ghost fields = value_tree(value)->Object_0;
                assert(decreases_to!(value_tree(value) => fields));
                assert(decreases_to!(fields => fields[entry.0@]));
                out.push(Member { key: entry.0, value: json_of(entry.1) });
            }
            proof {
                lemma_fields_of_entries(out@, whole);
            }
            Json::Object(out)
        },
    }
}

/// The JSON document that a text holds.
pub fn parse_json(text: &str) -> (json: Option<Json>)
    ensures
        held(json) == json_document(text@),
{
    match read_value(text) {
        Ok(value) => Some(json_of(value)),
        Err(_) => None,
    }
}

/// The documents that some lines hold.
pub open spec fn line_documents(lines: Seq<Seq<char>>) -> Seq<Option<Tree>> {
    lines.map_values(|line: Seq<char>| json_document(line))
}

/// Those of some documents that were read.
pub open spec fn read_ones(documents: Seq<Option<Tree>>) -> Seq<Tree>
    decreases documents.len(),
{
    if documents.len() == 0 {
        Seq::empty()
    } else {
        let before = read_ones(documents.drop_last());
        match documents.last() {
            Some(value) => before.push(value),
            None => before,
        }
    }
}

/// The documents of those lines that hold one.
pub fn parse_lines(lines: &Vec<String>) -> (out: Vec<Json>)
    ensures
        json::trees_of(out@) == read_ones(line_documents(text::texts(lines@))),
{
    broadcast use json::group_trees;

    let ghost all = line_documents(text::texts(lines@));
    let mut out: Vec<Json> = Vec::new();
    let mut i: usize = 0;
    assert(json::trees_of(out@) =~= read_ones(all.take(0)));
    while i < lines.len()
        invariant
            i <= lines.len(),
            all == line_documents(text::texts(lines@)),
            json::trees_of(out@) == read_ones(all.take(i as int)),
        decreases lines.len() - i,
    {
        assert(all.take(i + 1).drop_last() =~= all.take(i as int));
        assert(all.take(i + 1).last() == json_document(lines[i as int]@));
        if let Some(value) = parse_json(lines[i].as_str()) {
            out.push(value);
        }
        i += 1;
    }
    assert(all.take(i as int) =~= all);
    out
}

} // verus!
