//! What holds of every JSON value.
use crate::document;
use crate::document::Layer;
use crate::json;
use crate::json::{Json, Member, Tree};
use vstd::prelude::*;

verus! {

/// A field is what an object holds under its key; only an object has fields.
pub proof fn law_fields_are_those_of_objects(
    fields: Map<Seq<char>, Tree>,
    key: Seq<char>,
    value: Tree,
    other: Tree,
)
    requires
        !(other is Object),
    ensures
        Tree::Object(fields.insert(key, value)).field(key) == Some(value),
        !fields.contains_key(key) ==> Tree::Object(fields).field(key) is None,
        other.field(key) is None,
        json::field_in(Some(Tree::Object(fields.insert(key, value))), key) == Some(value),
        json::field_in(None, key) is None,
{
}

/// Of several keys the first that is there decides, whatever stands under it.
pub proof fn law_the_first_key_decides(
    tree: Tree,
    first: Seq<char>,
    second: Seq<char>,
    third: Seq<char>,
)
    ensures
        tree.field(first) is Some ==> tree.field_or(first, second) == tree.field(first)
            && tree.field_or_or(first, second, third) == tree.field(first),
        tree.field(first) is None ==> tree.field_or(first, second) == tree.field(second),
        tree.field(first) is None && tree.field(second) is Some ==> tree.field_or_or(
            first,
            second,
            third,
        ) == tree.field(second),
        tree.field(first) is None && tree.field(second) is None ==> tree.field_or_or(
            first,
            second,
            third,
        ) == tree.field(third),
{
}

/// A value under a key counts as a text, or as an array, only where it is one.
pub proof fn law_values_count_as_what_they_are(
    fields: Map<Seq<char>, Tree>,
    key: Seq<char>,
    said: Seq<char>,
    items: Seq<Tree>,
    other: Tree,
)
    ensures
        Tree::Object(fields.insert(key, Tree::Text(said))).text_at(key) == Some(said),
        Tree::Object(fields.insert(key, Tree::Array(items))).items_at(key) == Some(items),
        !(other is Text) ==> Tree::Object(fields.insert(key, other)).text_at(key) is None,
        !(other is Array) ==> Tree::Object(fields.insert(key, other)).items_at(key) is None,
        !fields.contains_key(key) ==> Tree::Object(fields).text_at(key) is None && Tree::Object(
            fields,
        ).items_at(key) is None,
        !(other is Object) ==> other.text_at(key) is None && other.items_at(key) is None,
{
}

/// An integer counts as what it is, as far as it fits; a text, a fraction or
/// anything else is no number.
pub proof fn law_numbers(n: u64, m: i64, other: Tree)
    ensures
        n <= i64::MAX ==> Tree::UInt(n).integer() == Some(n as i64),
        n > i64::MAX ==> Tree::UInt(n).integer() is None,
        Tree::NegInt(m).integer() == Some(m),
        Tree::UInt(n).natural() == Some(n),
        !(other is UInt) ==> other.natural() is None,
        !(other is UInt) && !(other is NegInt) ==> other.integer() is None,
{
}

/// The model of a plain value, of this library or of a layer that was read, is the
/// value itself.
pub proof fn law_plain_values_stand_for_themselves(
    yes: bool,
    natural: u64,
    integer: i64,
    said: String,
)
    ensures
        Json::Null@ == Tree::Null,
        Json::Bool(yes)@ == Tree::Bool(yes),
        Json::UInt(natural)@ == Tree::UInt(natural),
        Json::NegInt(integer)@ == Tree::NegInt(integer),
        Json::Float(natural)@ == Tree::Float(natural),
        Json::Text(said)@ == Tree::Text(said@),
        document::layer_tree(Layer::Null) == Tree::Null,
        document::layer_tree(Layer::Bool(yes)) == Tree::Bool(yes),
        document::layer_tree(Layer::UInt(natural)) == Tree::UInt(natural),
        document::layer_tree(Layer::NegInt(integer)) == Tree::NegInt(integer),
        document::layer_tree(Layer::Float(natural)) == Tree::Float(natural),
        document::layer_tree(Layer::Text(said)) == Tree::Text(said@),
{
}

/// The model of a value keeps all of it: the items of an array one by one, and
/// the members of an object by their keys, of which the first counts.
pub proof fn law_the_model_keeps_everything(items: Vec<Json>, members: Vec<Member>, at: int)
    ensures
        Json::Array(items)@ == Tree::Array(items@.map_values(|item: Json| item@)),
        0 <= at < members@.len() && (forall|j: int|
            0 <= j < at ==> (#[trigger] members@[j]).key@ != members@[at].key@)
            ==> Json::Object(members)@.field(members@[at].key@) == Some(members@[at].value@),
{
    broadcast use json::group_trees;

    assert(json::trees_of(items@) =~= items@.map_values(|item: Json| item@));
    if 0 <= at < members@.len() && (forall|j: int|
        0 <= j < at ==> (#[trigger] members@[j]).key@ != members@[at].key@) {
        lemma_first_member(members@, at);
    }
}

proof fn lemma_first_member(members: Seq<Member>, at: int)
    requires
        0 <= at < members.len(),
        forall|j: int| 0 <= j < at ==> (#[trigger] members[j]).key@ != members[at].key@,
    ensures
        json::fields_of(members).contains_key(members[at].key@),
        json::fields_of(members)[members[at].key@] == members[at].value@,
    decreases members.len(),
{
    let rest = members.subrange(1, members.len() as int);
    if at > 0 {
        assert(members[0].key@ != members[at].key@);
        assert forall|j: int| 0 <= j < at - 1 implies (#[trigger] rest[j]).key@ != rest[at
            - 1].key@ by {
            assert(rest[j] == members[j + 1]);
        }
        lemma_first_member(rest, at - 1);
    }
}

/// Lines are read one by one and in order; one that is no document is passed over
/// and takes none of the others with it.
pub proof fn law_lines_are_read_one_by_one(
    before: Seq<Seq<char>>,
    line: Seq<char>,
    behind: Seq<Seq<char>>,
)
    ensures
        document::read_ones(document::line_documents(before + seq![line] + behind))
            == document::read_ones(document::line_documents(before)) + (
        match document::json_document(line) {
            Some(value) => seq![value],
            None => Seq::empty(),
        }) + document::read_ones(document::line_documents(behind)),
{
    let a = document::line_documents(before);
    let x = document::json_document(line);
    let b = document::line_documents(behind);
    assert(document::line_documents(before + seq![line] + behind) =~= a + seq![x] + b);
    lemma_read_add(a + seq![x], b);
    lemma_read_add(a, seq![x]);
    assert(seq![x].drop_last() =~= Seq::empty());
    assert(document::read_ones(Seq::empty()) =~= Seq::empty());
    assert(document::read_ones(seq![x]) =~= match x {
        Some(value) => seq![value],
        None => Seq::empty(),
    });
}

proof fn lemma_read_add(a: Seq<Option<Tree>>, b: Seq<Option<Tree>>)
    ensures
        document::read_ones(a + b) == document::read_ones(a) + document::read_ones(b),
    decreases b.len(),
{
    if b.len() == 0 {
        assert(a + b =~= a);
        assert(document::read_ones(a) + document::read_ones(b) =~= document::read_ones(a));
    } else {
        lemma_read_add(a, b.drop_last());
        assert((a + b).drop_last() =~= a + b.drop_last());
        assert((a + b).last() == b.last());
        assert(document::read_ones(a + b) =~= document::read_ones(a) + document::read_ones(b));
    }
}

} // verus!
