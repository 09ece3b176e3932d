//! JSON documents as plain values of the library.
//!
//! `Json` is what the connectors read and keep; `Tree` is its mathematical
//! model, in which an object is a map and the order of members is forgotten.
use crate::text;
use vstd::prelude::*;

pub mod laws;

verus! {

/// A JSON value.
///
/// A number without fraction or exponent is a `UInt`, or a `NegInt` when it is
/// below zero; any other number is a `Float`, held as the bits of its IEEE 754
/// double. Of two members with one key the first counts.
#[derive(Debug)]
pub enum Json {
    Null,
    Bool(bool),
    UInt(u64),
    NegInt(i64),
    Float(u64),
    Text(String),
    Array(Vec<Json>),
    Object(Vec<Member>),
}

/// One member of a JSON object.
#[derive(Debug)]
pub struct Member {
    pub key: String,
    pub value: Json,
}

/// The mathematical model of a JSON value.
pub enum Tree {
    Null,
    Bool(bool),
    UInt(u64),
    NegInt(i64),
    Float(u64),
    Text(Seq<char>),
    Array(Seq<Tree>),
    Object(Map<Seq<char>, Tree>),
}

/// The model of a JSON value.
pub open spec fn tree_of(value: Json) -> Tree
    decreases value,
{
    match value {
        Json::Null => Tree::Null,
        Json::Bool(b) => Tree::Bool(b),
        Json::UInt(n) => Tree::UInt(n),
        Json::NegInt(n) => Tree::NegInt(n),
        Json::Float(bits) => Tree::Float(bits),
        Json::Text(s) => Tree::Text(s@),
        Json::Array(items) => Tree::Array(trees_of(items@)),
        Json::Object(members) => Tree::Object(fields_of(members@)),
    }
}

/// The models of the items of an array, in order.
pub open spec fn trees_of(items: Seq<Json>) -> Seq<Tree>
    decreases items,
{
    Seq::new(
        items.len(),
        |i: int|
            if 0 <= i < items.len() {
                tree_of(items[i])
            } else {
                Tree::Null
            },
    )
}

/// The fields of an object: what each key leads to.
pub open spec fn fields_of(members: Seq<Member>) -> Map<Seq<char>, Tree>
    decreases members,
{
    if members.len() == 0 {
        Map::empty()
    } else {
        fields_of(members.subrange(1, members.len() as int)).insert(
            members[0].key@,
            tree_of(members[0].value),
        )
    }
}

impl View for Json {
    type V = Tree;

    open spec fn view(&self) -> Tree {
        tree_of(*self)
    }
}

/// The model of a value that may be absent.
pub open spec fn seen(value: Option<&Json>) -> Option<Tree> {
    match value {
        Some(json) => Some(json@),
        None => None,
    }
}

/// The models of a list of items that may be absent.
pub open spec fn seen_items(items: Option<&Vec<Json>>) -> Option<Seq<Tree>> {
    match items {
        Some(list) => Some(trees_of(list@)),
        None => None,
    }
}

/// The text of a value that may be absent.
pub open spec fn text_in(value: Option<Tree>) -> Option<Seq<char>> {
    match value {
        Some(tree) => tree.text(),
        None => None,
    }
}

/// The value under a key of a value that may be absent.
pub open spec fn field_in(value: Option<Tree>, key: Seq<char>) -> Option<Tree> {
    match value {
        Some(tree) => tree.field(key),
        None => None,
    }
}

/// The items of a value that may be absent.
pub open spec fn items_in(value: Option<Tree>) -> Option<Seq<Tree>> {
    match value {
        Some(tree) => tree.items(),
        None => None,
    }
}

/// The items of an array that may be absent.
pub open spec fn items_or_none(items: Option<Seq<Tree>>) -> Seq<Tree> {
    match items {
        Some(list) => list,
        None => Seq::empty(),
    }
}

impl Tree {
    /// The value under a key, if this is an object that has the key.
    pub open spec fn field(self, key: Seq<char>) -> Option<Tree> {
        match self {
            Tree::Object(fields) => if fields.contains_key(key) {
                Some(fields[key])
            } else {
                None
            },
            _ => None,
        }
    }

    /// The value under the first of two keys that is present.
    pub open spec fn field_or(self, first: Seq<char>, second: Seq<char>) -> Option<Tree> {
        if self.field(first) is Some {
            self.field(first)
        } else {
            self.field(second)
        }
    }

    /// The value under the first of three keys that is present.
    pub open spec fn field_or_or(
        self,
        first: Seq<char>,
        second: Seq<char>,
        third: Seq<char>,
    ) -> Option<Tree> {
        if self.field(first) is Some {
            self.field(first)
        } else {
            self.field_or(second, third)
        }
    }

    /// The characters, if this is a text.
    pub open spec fn text(self) -> Option<Seq<char>> {
        match self {
            Tree::Text(s) => Some(s),
            _ => None,
        }
    }

    /// The items, if this is an array.
    pub open spec fn items(self) -> Option<Seq<Tree>> {
        match self {
            Tree::Array(items) => Some(items),
            _ => None,
        }
    }

    /// The number, if this is an integer within the range of `i64`.
    pub open spec fn integer(self) -> Option<i64> {
        match self {
            Tree::UInt(n) => if n <= i64::MAX {
                Some(n as i64)
            } else {
                None
            },
            Tree::NegInt(n) => Some(n),
            _ => None,
        }
    }

    /// The number, if this is an integer that is not below zero.
    pub open spec fn natural(self) -> Option<u64> {
        match self {
            Tree::UInt(n) => Some(n),
            _ => None,
        }
    }

    /// The text under a key.
    pub open spec fn text_at(self, key: Seq<char>) -> Option<Seq<char>> {
        text_in(self.field(key))
    }

    /// The items of the array under a key.
    pub open spec fn items_at(self, key: Seq<char>) -> Option<Seq<Tree>> {
        items_in(self.field(key))
    }
}

/// The value that a map gives for a key, if any.
pub open spec fn at_key(fields: Map<Seq<char>, Tree>, key: Seq<char>) -> Option<Tree> {
    if fields.contains_key(key) {
        Some(fields[key])
    } else {
        None
    }
}

/// Where the first member with a key stands, or how many members there are.
pub fn position(members: &Vec<Member>, key: &str) -> (at: usize)
    ensures
        at <= members.len(),
        forall|j: int| 0 <= j < at ==> members[j].key@ != key@,
        at < members.len() ==> {
            &&& members[at as int].key@ == key@
            &&& at_key(fields_of(members@), key@) == Some(members[at as int].value@)
        },
        at == members.len() ==> at_key(fields_of(members@), key@) is None,
{
    let mut i: usize = 0;
    assert(members@.subrange(0, members.len() as int) =~= members@);
    while i < members.len()
        invariant
            i <= members.len(),
            forall|j: int| 0 <= j < i ==> members[j].key@ != key@,
            at_key(fields_of(members@), key@) == at_key(
                fields_of(members@.subrange(i as int, members.len() as int)),
                key@,
            ),
        decreases members.len() - i,
    {
        let ghost rest = members@.subrange(i as int, members.len() as int);
        assert(rest.subrange(1, rest.len() as int) =~= members@.subrange(
            i + 1,
            members.len() as int,
        ));
        assert(rest[0] == members[i as int]);
        if text::same_text(members[i].key.as_str(), key) {
            return i;
        }
        i += 1;
    }
    i
}

/// The value under a key of a value that may be absent.
pub fn get_in<'a>(value: Option<&'a Json>, key: &str) -> (found: Option<&'a Json>)
    ensures
        seen(found) == field_in(seen(value), key@),
{
    match value {
        Some(inner) => inner.get(key),
        None => None,
    }
}

impl Json {
    /// The value under a key, if this is an object that has the key.
    pub fn get(&self, key: &str) -> (value: Option<&Json>)
        ensures
            seen(value) == self@.field(key@),
            value matches Some(inner) ==> decreases_to!(self => inner),
    {
        match self {
            Json::Object(members) => {
                let at = position(members, key);
                if at < members.len() {
                    let member = &members[at];
                    assert(decreases_to!(self => members@));
                    assert(decreases_to!(members@ => members@[at as int]));
                    Some(&member.value)
                } else {
                    None
                }
            },
            _ => None,
        }
    }

    /// The value under the first of two keys that is present.
    pub fn get_or(&self, first: &str, second: &str) -> (value: Option<&Json>)
        ensures
            seen(value) == self@.field_or(first@, second@),
    {
        let found = self.get(first);
        if found.is_some() {
            found
        } else {
            self.get(second)
        }
    }

    /// The value under the first of three keys that is present.
    pub fn get_or_or(&self, first: &str, second: &str, third: &str) -> (value: Option<&Json>)
        ensures
            seen(value) == self@.field_or_or(first@, second@, third@),
    {
        let found = self.get(first);
        if found.is_some() {
            found
        } else {
            self.get_or(second, third)
        }
    }

    /// The text, if this is one.
    pub fn as_str(&self) -> (value: Option<&str>)
        ensures
            text::seen(value) == self@.text(),
    {
        match self {
            Json::Text(s) => Some(s.as_str()),
            _ => None,
        }
    }

    /// The items, if this is an array.
    pub fn as_array(&self) -> (items: Option<&Vec<Json>>)
        ensures
            seen_items(items) == self@.items(),
    {
        match self {
            Json::Array(items) => Some(items),
            _ => None,
        }
    }

    /// The number, if this is an integer within the range of `i64`.
    pub fn as_i64(&self) -> (value: Option<i64>)
        ensures
            value == self@.integer(),
    {
        match self {
            Json::UInt(n) => {
                if *n <= i64::MAX as u64 {
                    Some(*n as i64)
                } else {
                    None
                }
            },
            Json::NegInt(n) => Some(*n),
            _ => None,
        }
    }

    /// The number, if this is an integer that is not below zero.
    pub fn as_u64(&self) -> (value: Option<u64>)
        ensures
            value == self@.natural(),
    {
        match self {
            Json::UInt(n) => Some(*n),
            _ => None,
        }
    }

    /// Whether this is an object.
    pub fn is_object(&self) -> (object: bool)
        ensures
            object == (self@ is Object),
    {
        match self {
            Json::Object(_) => true,
            _ => false,
        }
    }

    /// The text under a key.
    pub fn str_at(&self, key: &str) -> (value: Option<&str>)
        ensures
            text::seen(value) == self@.text_at(key@),
    {
        match self.get(key) {
            Some(value) => value.as_str(),
            None => None,
        }
    }

    /// The items of the array under a key.
    pub fn array_at(&self, key: &str) -> (items: Option<&Vec<Json>>)
        ensures
            seen_items(items) == self@.items_at(key@),
    {
        match self.get(key) {
            Some(value) => value.as_array(),
            None => None,
        }
    }

    /// A value of its own with the same contents.
    pub fn copy(&self) -> (twin: Json)
        ensures
            twin@ == self@,
        decreases self,
    {
        broadcast use group_trees;

        match self {
            Json::Null => Json::Null,
            Json::Bool(b) => Json::Bool(*b),
            Json::UInt(n) => Json::UInt(*n),
            Json::NegInt(n) => Json::NegInt(*n),
            Json::Float(bits) => Json::Float(*bits),
            Json::Text(s) => Json::Text(s.clone()),
            Json::Array(items) => {
                assert(decreases_to!(self => items@));
                let out = copy_items(items);
                Json::Array(out)
            },
            Json::Object(members) => {
                let mut out: Vec<Member> = Vec::new();
                let mut i: usize = 0;
                while i < members.len()
                    invariant
                        i <= members.len(),
                        out.len() == i,
                        decreases_to!(self => members@),
                        forall|j: int|
                            0 <= j < i ==> (#[trigger] out[j]).key@ == members[j].key@
                                && out[j].value@ == members[j].value@,
                    decreases members.len() - i,
                {
                    assert(decreases_to!(members@ => members@[i as int]));
                    let value = members[i].value.copy();
                    out.push(Member { key: members[i].key.clone(), value });
                    i += 1;
                }
                proof {
                    lemma_same_fields(out@, members@);
                }
                Json::Object(out)
            },
        }
    }
}

/// There are as many models as items.
pub broadcast proof fn lemma_trees_len(items: Seq<Json>)
    ensures
        #[trigger] trees_of(items).len() == items.len(),
{
}

/// Each model is that of the item at its place.
pub broadcast proof fn lemma_trees_index(items: Seq<Json>, i: int)
    requires
        0 <= i < items.len(),
    ensures
        #[trigger] trees_of(items)[i] == tree_of(items[i]),
{
}

/// One more item is one more model.
pub broadcast proof fn lemma_trees_push(items: Seq<Json>, item: Json)
    ensures
        #[trigger] trees_of(items.push(item)) == trees_of(items).push(tree_of(item)),
{
    broadcast use lemma_trees_len, lemma_trees_index;

    let longer = items.push(item);
    assert forall|i: int| 0 <= i < longer.len() implies trees_of(longer)[i] == trees_of(items).push(
        tree_of(item),
    )[i] by {
        if i < items.len() {
            assert(trees_of(items)[i] == tree_of(items[i]));
        }
    }
    assert(trees_of(longer) =~= trees_of(items).push(tree_of(item)));
}

/// What is known of the models of a list.
pub broadcast group group_trees {
    lemma_trees_push,
    lemma_trees_len,
    lemma_trees_index,
}

/// Copies of the items of an array.
pub fn copy_items(items: &Vec<Json>) -> (out: Vec<Json>)
    ensures
        trees_of(out@) == trees_of(items@),
    decreases items@,
{
    broadcast use group_trees;

    let mut out: Vec<Json> = Vec::new();
    let mut i: usize = 0;
    while i < items.len()
        invariant
            i <= items.len(),
            trees_of(out@) =~= trees_of(items@).take(i as int),
        decreases items.len() - i,
    {
        assert(decreases_to!(items@ => items@[i as int]));
        let twin = items[i].copy();
        out.push(twin);
        assert(trees_of(items@).take(i + 1) =~= trees_of(items@).take(i as int).push(trees_of(items@)[i as int]));
        i += 1;
    }
    assert(trees_of(out@) =~= trees_of(items@));
    out
}

/// Members that agree one by one give the same fields.
pub proof fn lemma_same_fields(a: Seq<Member>, b: Seq<Member>)
    requires
        a.len() == b.len(),
        forall|j: int|
            0 <= j < a.len() ==> (#[trigger] a[j]).key@ == b[j].key@ && a[j].value@ == b[j].value@,
    ensures
        fields_of(a) == fields_of(b),
    decreases a.len(),
{
    if a.len() > 0 {
        let x = a.subrange(1, a.len() as int);
        let y = b.subrange(1, b.len() as int);
        assert forall|j: int| 0 <= j < x.len() implies (#[trigger] x[j]).key@ == y[j].key@
            && x[j].value@ == y[j].value@ by {
            assert(x[j] == a[j + 1]);
        }
        lemma_same_fields(x, y);
        assert(a[0].key@ == b[0].key@);
    }
}

/// Replacing the value of the first member with a key replaces that field.
pub proof fn lemma_fields_update(members: Seq<Member>, at: int, member: Member)
    requires
        0 <= at < members.len(),
        members[at].key@ == member.key@,
        forall|j: int| 0 <= j < at ==> members[j].key@ != member.key@,
    ensures
        fields_of(members.update(at, member)) == fields_of(members).insert(
            member.key@,
            member.value@,
        ),
    decreases members.len(),
{
    let rest = members.subrange(1, members.len() as int);
    let changed = members.update(at, member);
    if at == 0 {
        assert(changed.subrange(1, changed.len() as int) =~= rest);
        assert(fields_of(changed) =~= fields_of(members).insert(member.key@, member.value@));
    } else {
        assert forall|j: int| 0 <= j < at - 1 implies rest[j].key@ != member.key@ by {
            assert(rest[j] == members[j + 1]);
        }
        lemma_fields_update(rest, at - 1, member);
        assert(changed.subrange(1, changed.len() as int) =~= rest.update(at - 1, member));
        assert(fields_of(changed) =~= fields_of(members).insert(member.key@, member.value@));
    }
}

/// A member with a new key, put at the end, adds its field.
pub proof fn lemma_fields_push(members: Seq<Member>, member: Member)
    requires
        forall|j: int| 0 <= j < members.len() ==> members[j].key@ != member.key@,
    ensures
        fields_of(members.push(member)) == fields_of(members).insert(member.key@, member.value@),
    decreases members.len(),
{
    let longer = members.push(member);
    if members.len() == 0 {
        assert(longer.subrange(1, longer.len() as int) =~= members);
    } else {
        let rest = members.subrange(1, members.len() as int);
        assert forall|j: int| 0 <= j < rest.len() implies rest[j].key@ != member.key@ by {
            assert(rest[j] == members[j + 1]);
        }
        lemma_fields_push(rest, member);
        assert(longer.subrange(1, longer.len() as int) =~= rest.push(member));
        assert(members[0].key@ != member.key@);
        assert(fields_of(longer) =~= fields_of(members).insert(member.key@, member.value@));
    }
}

/// Taking out a member changes no field but the one under its key.
pub proof fn lemma_fields_remove(members: Seq<Member>, at: int)
    requires
        0 <= at < members.len(),
    ensures
        fields_of(members.remove(at)).remove(members[at].key@) == fields_of(members).remove(
            members[at].key@,
        ),
    decreases members.len(),
{
    let rest = members.subrange(1, members.len() as int);
    let key = members[at].key@;
    let fewer = members.remove(at);
    if at == 0 {
        assert(fewer =~= rest);
        assert(fields_of(fewer).remove(key) =~= fields_of(members).remove(key));
    } else {
        lemma_fields_remove(rest, at - 1);
        assert(rest[at - 1] == members[at]);
        assert(fewer.subrange(1, fewer.len() as int) =~= rest.remove(at - 1));
        let a = fields_of(rest.remove(at - 1));
        let b = fields_of(rest);
        let first = members[0].key@;
        let value = members[0].value@;
        assert(fewer[0] == members[0]);
        assert(fields_of(fewer) == a.insert(first, value));
        assert(fields_of(members) == b.insert(first, value));
        let x = a.insert(first, value).remove(key);
        let y = b.insert(first, value).remove(key);
        assert forall|k: Seq<char>| #[trigger] x.contains_key(k) == y.contains_key(k) && (
        x.contains_key(k) ==> x[k] == y[k]) by {
            if k != key {
                assert(a.remove(key).contains_key(k) == b.remove(key).contains_key(k));
                if a.contains_key(k) {
                    assert(a.remove(key)[k] == b.remove(key)[k]);
                }
            }
        }
        assert(x =~= y);
    }
}

/// A key that no member has is no field.
pub proof fn lemma_fields_absent(members: Seq<Member>, key: Seq<char>)
    requires
        forall|j: int| 0 <= j < members.len() ==> members[j].key@ != key,
    ensures
        !fields_of(members).contains_key(key),
    decreases members.len(),
{
    if members.len() > 0 {
        let rest = members.subrange(1, members.len() as int);
        assert forall|j: int| 0 <= j < rest.len() implies rest[j].key@ != key by {
            assert(rest[j] == members[j + 1]);
        }
        lemma_fields_absent(rest, key);
        assert(members[0].key@ != key);
    }
}

} // verus!
