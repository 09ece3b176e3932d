//! Replays VS Code's append-only chat session mutation logs.
//!
//! VS Code stores a complete snapshot as a `kind: 0` record, then persists
//! object mutations as `kind: 1` (set), `kind: 2` (array push/splice), and
//! `kind: 3` (delete) records. The records are read as JSON values, so every
//! persisted session version can be replayed.
use crate::document;
use crate::json;
use crate::json::{Json, Member, Tree};
use crate::text;
use vstd::prelude::*;

verus! {

/// Why a log, or one of its records, is rejected.
#[derive(Clone, Copy, Debug, PartialEq, Eq, Structural)]
pub enum ReplayError {
    /// A line before the last is no JSON document.
    InvalidEntry,
    /// The record has no numeric kind.
    NoKind,
    /// The record's kind is none of those known.
    UnknownKind(i64),
    /// A snapshot has no value.
    InitialWithoutValue,
    /// A mutation comes before any snapshot.
    MissingInitial,
    /// A set has no value.
    SetWithoutValue,
    /// The value of a push is no array.
    PushValueNotArray,
    /// The index of a push is no number from zero up.
    PushIndexNotNonNegative,
    /// The index of a push is beyond what can be addressed.
    PushIndexTooLarge,
    /// A mutation has no path.
    NoPath,
    /// A segment of a path is neither a name nor an index.
    InvalidSegment,
    /// An index in a path is beyond what can be addressed.
    PathIndexTooLarge,
    /// A name in a path leads nowhere.
    NotAnObjectKey,
    /// An index in a path leads nowhere.
    NotAnArrayIndex,
    /// A set by name whose parent is no object.
    SetParentNotObject,
    /// A set by index whose parent is no array.
    SetParentNotArray,
    /// A push without a target.
    PushPathEmpty,
    /// A push by name whose parent is no object.
    PushParentNotObject,
    /// A push by index whose parent has no such item.
    PushParentNotArrayIndex,
    /// A push onto something that is no array.
    PushTargetNotArray,
    /// A delete by name whose parent is no object.
    DeleteParentNotObject,
    /// A delete by index whose parent is no array.
    DeleteParentNotArray,
    /// A delete beyond the end of an array.
    DeleteIndexOutOfBounds,
    /// The log has no records.
    EmptyLog,
    /// The log leaves no state.
    NoInitialState,
}

/// One segment of a path: a name in an object or an index in an array.
#[derive(Debug)]
pub enum PathKey {
    Name(String),
    Index(u64),
}

/// The model of a path segment.
pub enum KeyView {
    Name(Seq<char>),
    Index(u64),
}

impl View for PathKey {
    type V = KeyView;

    open spec fn view(&self) -> KeyView {
        match self {
            PathKey::Name(name) => KeyView::Name(name@),
            PathKey::Index(index) => KeyView::Index(*index),
        }
    }
}

/// The models of the segments of a path.
pub open spec fn keys_of(path: Seq<PathKey>) -> Seq<KeyView> {
    path.map_values(|key: PathKey| key@)
}

/// An array brought to at least `len` items by nulls at its end.
pub open spec fn padded(items: Seq<Tree>, len: nat) -> Seq<Tree> {
    if items.len() < len {
        items + Seq::new((len - items.len()) as nat, |i: int| Tree::Null)
    } else {
        items
    }
}

/// The value one segment below another.
pub open spec fn child(tree: Tree, key: KeyView) -> Result<Tree, ReplayError> {
    match key {
        KeyView::Name(name) => match tree.field(name) {
            Some(value) => Ok(value),
            None => Err(ReplayError::NotAnObjectKey),
        },
        KeyView::Index(index) => if index > usize::MAX {
            Err(ReplayError::PathIndexTooLarge)
        } else {
            match tree {
                Tree::Array(items) if index < items.len() => Ok(items[index as int]),
                _ => Err(ReplayError::NotAnArrayIndex),
            }
        },
    }
}

/// A value with the value one segment below it replaced.
pub open spec fn with_child(tree: Tree, key: KeyView, value: Tree) -> Tree {
    match (tree, key) {
        (Tree::Object(fields), KeyView::Name(name)) => Tree::Object(fields.insert(name, value)),
        (Tree::Array(items), KeyView::Index(index)) => Tree::Array(
            items.update(index as int, value),
        ),
        _ => tree,
    }
}

/// What a change of the value at the end of a path makes of the whole.
pub open spec fn changed_below(
    tree: Tree,
    path: Seq<KeyView>,
    change: spec_fn(Tree, KeyView) -> Result<Tree, ReplayError>,
) -> Result<Tree, ReplayError>
    recommends
        path.len() > 0,
    decreases path.len(),
{
    if path.len() <= 1 {
        change(tree, path[0])
    } else {
        match child(tree, path[0]) {
            Err(error) => Err(error),
            Ok(below) => match changed_below(below, path.skip(1), change) {
                Err(error) => Err(error),
                Ok(value) => Ok(with_child(tree, path[0], value)),
            },
        }
    }
}

/// Setting one name or index of a parent.
pub open spec fn set_in(value: Tree) -> spec_fn(Tree, KeyView) -> Result<Tree, ReplayError> {
    |parent: Tree, key: KeyView|
        match key {
            KeyView::Name(name) => match parent {
                Tree::Object(fields) => Ok(Tree::Object(fields.insert(name, value))),
                _ => Err(ReplayError::SetParentNotObject),
            },
            KeyView::Index(index) => if index > usize::MAX {
                Err(ReplayError::PathIndexTooLarge)
            } else {
                match parent {
                    Tree::Array(items) => if index == usize::MAX {
                        Err(ReplayError::PathIndexTooLarge)
                    } else {
                        Ok(
                            Tree::Array(
                                padded(items, (index + 1) as nat).update(index as int, value),
                            ),
                        )
                    },
                    _ => Err(ReplayError::SetParentNotArray),
                }
            },
        }
}

/// Setting the value at a path. The empty path is left alone: only a snapshot
/// replaces the whole.
pub open spec fn tree_set(tree: Tree, path: Seq<KeyView>, value: Tree) -> Result<
    Tree,
    ReplayError,
> {
    if path.len() == 0 {
        Ok(tree)
    } else {
        changed_below(tree, path, set_in(value))
    }
}

/// An array cut or padded to a start index, with values put at its end.
pub open spec fn spliced(
    items: Seq<Tree>,
    values: Option<Seq<Tree>>,
    start: Option<usize>,
) -> Seq<Tree> {
    let kept = match start {
        Some(index) => padded(items, index as nat).take(index as int),
        None => items,
    };
    match values {
        Some(more) => kept + more,
        None => kept,
    }
}

/// Pushing onto the array under one name or index of a parent. A name that the
/// parent lacks stands for an empty array.
pub open spec fn push_in(values: Option<Seq<Tree>>, start: Option<usize>) -> spec_fn(
    Tree,
    KeyView,
) -> Result<Tree, ReplayError> {
    |parent: Tree, key: KeyView|
        match key {
            KeyView::Name(name) => match parent {
                Tree::Object(fields) => {
                    let target = if fields.contains_key(name) {
                        fields[name]
                    } else {
                        Tree::Array(Seq::empty())
                    };
                    match target {
                        Tree::Array(items) => Ok(
                            Tree::Object(
                                fields.insert(name, Tree::Array(spliced(items, values, start))),
                            ),
                        ),
                        _ => Err(ReplayError::PushTargetNotArray),
                    }
                },
                _ => Err(ReplayError::PushParentNotObject),
            },
            KeyView::Index(index) => if index > usize::MAX {
                Err(ReplayError::PathIndexTooLarge)
            } else {
                match parent {
                    Tree::Array(slots) if index < slots.len() => match slots[index as int] {
                        Tree::Array(items) => Ok(
                            Tree::Array(
                                slots.update(
                                    index as int,
                                    Tree::Array(spliced(items, values, start)),
                                ),
                            ),
                        ),
                        _ => Err(ReplayError::PushTargetNotArray),
                    },
                    _ => Err(ReplayError::PushParentNotArrayIndex),
                }
            },
        }
}

/// Pushing onto the array at a path.
pub open spec fn tree_push(
    tree: Tree,
    path: Seq<KeyView>,
    values: Option<Seq<Tree>>,
    start: Option<usize>,
) -> Result<Tree, ReplayError> {
    if path.len() == 0 {
        Err(ReplayError::PushPathEmpty)
    } else {
        changed_below(tree, path, push_in(values, start))
    }
}

/// Deleting one name or index of a parent. An array keeps its length: a null
/// stands where the item was.
pub open spec fn delete_in() -> spec_fn(Tree, KeyView) -> Result<Tree, ReplayError> {
    |parent: Tree, key: KeyView|
        match key {
            KeyView::Name(name) => match parent {
                Tree::Object(fields) => Ok(Tree::Object(fields.remove(name))),
                _ => Err(ReplayError::DeleteParentNotObject),
            },
            KeyView::Index(index) => if index > usize::MAX {
                Err(ReplayError::PathIndexTooLarge)
            } else {
                match parent {
                    Tree::Array(items) => if index < items.len() {
                        Ok(Tree::Array(items.update(index as int, Tree::Null)))
                    } else {
                        Err(ReplayError::DeleteIndexOutOfBounds)
                    },
                    _ => Err(ReplayError::DeleteParentNotArray),
                }
            },
        }
}

/// Deleting the value at a path. The empty path is left alone.
pub open spec fn tree_delete(tree: Tree, path: Seq<KeyView>) -> Result<Tree, ReplayError> {
    if path.len() == 0 {
        Ok(tree)
    } else {
        changed_below(tree, path, delete_in())
    }
}

/// What an outcome says of the state before and after.
pub open spec fn moved(
    outcome: Result<(), ReplayError>,
    before: Tree,
    after: Tree,
    expected: Result<Tree, ReplayError>,
) -> bool {
    match expected {
        Ok(tree) => outcome is Ok && after == tree,
        Err(error) => outcome == Err::<(), ReplayError>(error) && after == before,
    }
}

/// The models of values that may be absent.
pub open spec fn seen_values(values: Option<Vec<Json>>) -> Option<Seq<Tree>> {
    match values {
        Some(list) => Some(json::trees_of(list@)),
        None => None,
    }
}

/// Where an array index leads, or why it leads nowhere.
fn array_place(index: u64, len: usize, missing: ReplayError) -> (place: Result<usize, ReplayError>)
    ensures
        index > usize::MAX ==> place == Err::<usize, ReplayError>(ReplayError::PathIndexTooLarge),
        index <= usize::MAX && index < len ==> place == Ok::<usize, ReplayError>(index as usize),
        index <= usize::MAX && index >= len ==> place == Err::<usize, ReplayError>(missing),
{
    if index > usize::MAX as u64 {
        Err(ReplayError::PathIndexTooLarge)
    } else if (index as usize) < len {
        Ok(index as usize)
    } else {
        Err(missing)
    }
}

/// Brings an array to at least `len` items by nulls at its end.
fn pad(items: &mut Vec<Json>, len: usize)
    ensures
        json::trees_of(final(items)@) == padded(json::trees_of(old(items)@), len as nat),
{
    broadcast use json::group_trees;

    let ghost before = json::trees_of(items@);
    let ghost start = items@.len();
    while items.len() < len
        invariant
            start == before.len(),
            items@.len() >= start,
            items@.len() <= len || items@.len() == start,
            json::trees_of(items@) == before + Seq::new(
                (items@.len() - start) as nat,
                |i: int| Tree::Null,
            ),
        decreases len - items.len(),
    {
        let ghost now = items@;
        items.push(Json::Null);
        assert(json::trees_of(items@) == json::trees_of(now).push(Tree::Null));
        assert(json::trees_of(items@) =~= before + Seq::new(
            (items@.len() - start) as nat,
            |i: int| Tree::Null,
        ));
    }
    assert(json::trees_of(items@) =~= padded(before, len as nat));
}

/// Puts a value under a name.
fn put(members: &mut Vec<Member>, name: &str, value: Json)
    ensures
        json::fields_of(final(members)@) == json::fields_of(old(members)@).insert(name@, value@),
{
    let at = json::position(members, name);
    if at < members.len() {
        let ghost before = members@;
        members[at].value = value;
        proof {
            let member = members@[at as int];
            assert(members@ =~= before.update(at as int, member));
            json::lemma_fields_update(before, at as int, member);
        }
    } else {
        let member = Member { key: name.to_owned(), value };
        proof {
            json::lemma_fields_push(members@, member);
        }
        members.push(member);
    }
}

/// Sets one name or index of a parent.
fn set_here(parent: &mut Json, key: &PathKey, value: Json) -> (outcome: Result<(), ReplayError>)
    ensures
        moved(outcome, old(parent)@, final(parent)@, set_in(value@)(old(parent)@, key@)),
{
    match key {
        PathKey::Name(name) => match parent {
            Json::Object(members) => {
                put(members, name.as_str(), value);
                Ok(())
            },
            _ => Err(ReplayError::SetParentNotObject),
        },
        PathKey::Index(index) => {
            if *index > usize::MAX as u64 {
                return Err(ReplayError::PathIndexTooLarge);
            }
            let place = *index as usize;
            match parent {
                Json::Array(items) => {
                    broadcast use json::group_trees;

                    if place == usize::MAX {
                        return Err(ReplayError::PathIndexTooLarge);
                    }
                    pad(items, place + 1);
                    let ghost longer = items@;
                    assert(json::trees_of(longer).len() == longer.len());
                    items[place] = value;
                    assert(json::trees_of(items@) =~= json::trees_of(longer).update(
                        place as int,
                        value@,
                    ));
                    Ok(())
                },
                _ => Err(ReplayError::SetParentNotArray),
            }
        },
    }
}

/// Cuts or pads an array to a start index and puts values at its end.
fn splice(items: &mut Vec<Json>, values: Option<Vec<Json>>, start: Option<usize>)
    ensures
        json::trees_of(final(items)@) == spliced(
            json::trees_of(old(items)@),
            seen_values(values),
            start,
        ),
{
    broadcast use json::group_trees;

    let ghost before = json::trees_of(items@);
    if let Some(index) = start {
        pad(items, index);
        let ghost longer = items@;
        assert(json::trees_of(longer).len() == longer.len());
        items.truncate(index);
        assert(json::trees_of(items@) =~= padded(before, index as nat).take(index as int));
    }
    let ghost kept = items@;
    if let Some(more) = values {
        let mut rest = more;
        items.append(&mut rest);
        assert(json::trees_of(items@) =~= json::trees_of(kept) + json::trees_of(more@));
    }
}

/// Pushes onto the array under one name or index of a parent.
fn push_here(
    parent: &mut Json,
    key: &PathKey,
    values: Option<Vec<Json>>,
    start: Option<usize>,
) -> (outcome: Result<(), ReplayError>)
    ensures
        moved(
            outcome,
            old(parent)@,
            final(parent)@,
            push_in(seen_values(values), start)(old(parent)@, key@),
        ),
{
    broadcast use json::group_trees;

    match key {
        PathKey::Name(name) => match parent {
            Json::Object(members) => {
                let at = json::position(members, name.as_str());
                let ghost before = members@;
                if at < members.len() {
                    match &mut members[at].value {
                        Json::Array(items) => {
                            splice(items, values, start);
                        },
                        _ => {
                            assert(members@ =~= before);
                            return Err(ReplayError::PushTargetNotArray);
                        },
                    }
                    proof {
                        let member = members@[at as int];
                        assert(members@ =~= before.update(at as int, member));
                        json::lemma_fields_update(before, at as int, member);
                    }
                } else {
                    let mut items: Vec<Json> = Vec::new();
                    assert(json::trees_of(items@) =~= Seq::empty());
                    splice(&mut items, values, start);
                    let member = Member { key: name.clone(), value: Json::Array(items) };
                    proof {
                        json::lemma_fields_push(members@, member);
                    }
                    members.push(member);
                }
                Ok(())
            },
            _ => Err(ReplayError::PushParentNotObject),
        },
        PathKey::Index(index) => match parent {
            Json::Array(slots) => {
                let ghost before = slots@;
                match array_place(*index, slots.len(), ReplayError::PushParentNotArrayIndex) {
                    Err(error) => Err(error),
                    Ok(place) => {
                        match &mut slots[place] {
                            Json::Array(items) => {
                                splice(items, values, start);
                            },
                            _ => {
                                assert(slots@ =~= before);
                                assert(json::trees_of(before)[place as int]
                                    == before[place as int]@);
                                return Err(ReplayError::PushTargetNotArray);
                            },
                        }
                        assert(json::trees_of(slots@) =~= json::trees_of(before).update(
                            place as int,
                            slots@[place as int]@,
                        ));
                        Ok(())
                    },
                }
            },
            _ => {
                if *index > usize::MAX as u64 {
                    Err(ReplayError::PathIndexTooLarge)
                } else {
                    Err(ReplayError::PushParentNotArrayIndex)
                }
            },
        },
    }
}

/// Takes a name out of an object.
fn take_out(members: &mut Vec<Member>, name: &str)
    ensures
        json::fields_of(final(members)@) == json::fields_of(old(members)@).remove(name@),
{
    let ghost before = json::fields_of(members@);
    let mut i: usize = 0;
    while i < members.len()
        invariant
            i <= members.len(),
            forall|j: int| 0 <= j < i ==> members[j].key@ != name@,
            json::fields_of(members@).remove(name@) == before.remove(name@),
        decreases members.len() - i,
    {
        if text::same_text(members[i].key.as_str(), name) {
            proof {
                json::lemma_fields_remove(members@, i as int);
            }
            members.remove(i);
        } else {
            i += 1;
        }
    }
    proof {
        json::lemma_fields_absent(members@, name@);
        assert(json::fields_of(members@) =~= json::fields_of(members@).remove(name@));
    }
}

/// Deletes one name or index of a parent.
fn delete_here(parent: &mut Json, key: &PathKey) -> (outcome: Result<(), ReplayError>)
    ensures
        moved(outcome, old(parent)@, final(parent)@, delete_in()(old(parent)@, key@)),
{
    broadcast use json::group_trees;

    match key {
        PathKey::Name(name) => match parent {
            Json::Object(members) => {
                take_out(members, name.as_str());
                Ok(())
            },
            _ => Err(ReplayError::DeleteParentNotObject),
        },
        PathKey::Index(index) => match parent {
            Json::Array(items) => {
                let ghost before = items@;
                match array_place(*index, items.len(), ReplayError::DeleteIndexOutOfBounds) {
                    Err(error) => Err(error),
                    Ok(place) => {
                        items[place] = Json::Null;
                        assert(json::trees_of(items@) =~= json::trees_of(before).update(
                            place as int,
                            Tree::Null,
                        ));
                        Ok(())
                    },
                }
            },
            _ => {
                if *index > usize::MAX as u64 {
                    Err(ReplayError::PathIndexTooLarge)
                } else {
                    Err(ReplayError::DeleteParentNotArray)
                }
            },
        },
    }
}

/// What is to be done to the value at the end of a path.
pub enum Change {
    Assign(Json),
    Push { values: Option<Vec<Json>>, start: Option<usize> },
    Delete,
}

/// What a change makes of one name or index of a parent.
pub open spec fn change_in(change: Change) -> spec_fn(Tree, KeyView) -> Result<Tree, ReplayError> {
    match change {
        Change::Assign(value) => set_in(value@),
        Change::Push { values, start } => push_in(seen_values(values), start),
        Change::Delete => delete_in(),
    }
}

/// Makes a change at the end of a path, from the segment `at` on.
fn change_below(state: &mut Json, path: &Vec<PathKey>, at: usize, change: Change) -> (outcome:
    Result<(), ReplayError>)
    requires
        at < path.len(),
    ensures
        moved(
            outcome,
            old(state)@,
            final(state)@,
            changed_below(old(state)@, keys_of(path@).skip(at as int), change_in(change)),
        ),
    decreases path.len() - at,
{
    broadcast use json::group_trees;

    let ghost keys = keys_of(path@).skip(at as int);
    let key = &path[at];
    assert(keys[0] == key@);
    if at + 1 == path.len() {
        return match change {
            Change::Assign(value) => set_here(state, key, value),
            Change::Push { values, start } => push_here(state, key, values, start),
            Change::Delete => delete_here(state, key),
        };
    }
    assert(keys.skip(1) =~= keys_of(path@).skip(at + 1));
    match key {
        PathKey::Name(name) => match state {
            Json::Object(members) => {
                let place = json::position(members, name.as_str());
                if place < members.len() {
                    let ghost before = members@;
                    let outcome = change_below(&mut members[place].value, path, at + 1, change);
                    proof {
                        let member = members@[place as int];
                        assert(members@ =~= before.update(place as int, member));
                        json::lemma_fields_update(before, place as int, member);
                        let fields = json::fields_of(before);
                        assert(fields.insert(name@, fields[name@]) =~= fields);
                    }
                    outcome
                } else {
                    Err(ReplayError::NotAnObjectKey)
                }
            },
            _ => Err(ReplayError::NotAnObjectKey),
        },
        PathKey::Index(index) => match state {
            Json::Array(items) => match array_place(
                *index,
                items.len(),
                ReplayError::NotAnArrayIndex,
            ) {
                Err(error) => Err(error),
                Ok(place) => {
                    let ghost before = items@;
                    let outcome = change_below(&mut items[place], path, at + 1, change);
                    assert(json::trees_of(items@) =~= json::trees_of(before).update(
                        place as int,
                        items@[place as int]@,
                    ));
                    assert(json::trees_of(before).update(
                        place as int,
                        json::trees_of(before)[place as int],
                    ) =~= json::trees_of(before));
                    outcome
                },
            },
            _ => {
                if *index > usize::MAX as u64 {
                    Err(ReplayError::PathIndexTooLarge)
                } else {
                    Err(ReplayError::NotAnArrayIndex)
                }
            },
        },
    }
}

/// Sets the value at a path.
pub fn set_at_path(state: &mut Json, path: &Vec<PathKey>, value: Json) -> (outcome: Result<
    (),
    ReplayError,
>)
    ensures
        moved(outcome, old(state)@, final(state)@, tree_set(old(state)@, keys_of(path@), value@)),
{
    if path.len() == 0 {
        return Ok(());
    }
    assert(keys_of(path@).skip(0) =~= keys_of(path@));
    change_below(state, path, 0, Change::Assign(value))
}

/// Pushes values onto the array at a path, first cutting or padding it to the
/// start index where there is one.
pub fn push_at_path(
    state: &mut Json,
    path: &Vec<PathKey>,
    values: Option<Vec<Json>>,
    start_index: Option<usize>,
) -> (outcome: Result<(), ReplayError>)
    ensures
        moved(
            outcome,
            old(state)@,
            final(state)@,
            tree_push(old(state)@, keys_of(path@), seen_values(values), start_index),
        ),
{
    if path.len() == 0 {
        return Err(ReplayError::PushPathEmpty);
    }
    assert(keys_of(path@).skip(0) =~= keys_of(path@));
    change_below(state, path, 0, Change::Push { values, start: start_index })
}

/// Deletes the value at a path.
pub fn delete_at_path(state: &mut Json, path: &Vec<PathKey>) -> (outcome: Result<(), ReplayError>)
    ensures
        moved(outcome, old(state)@, final(state)@, tree_delete(old(state)@, keys_of(path@))),
{
    if path.len() == 0 {
        return Ok(());
    }
    assert(keys_of(path@).skip(0) =~= keys_of(path@));
    change_below(state, path, 0, Change::Delete)
}

/// The segments of a record's path, if it has one and each is a name or an index.
pub open spec fn entry_path(entry: Tree) -> Result<Seq<KeyView>, ReplayError> {
    match entry.items_at("k"@) {
        None => Err(ReplayError::NoPath),
        Some(parts) => if forall|i: int| 0 <= i < parts.len() ==> is_segment(#[trigger] parts[i]) {
            Ok(parts.map_values(|part: Tree| segment(part)))
        } else {
            Err(ReplayError::InvalidSegment)
        },
    }
}

/// Whether a value can be a segment of a path.
pub open spec fn is_segment(part: Tree) -> bool {
    part is Text || part is UInt
}

/// The segment that a text or a natural number stands for.
pub open spec fn segment(part: Tree) -> KeyView {
    match part {
        Tree::Text(name) => KeyView::Name(name),
        Tree::UInt(index) => KeyView::Index(index),
        _ => KeyView::Index(0),
    }
}

/// What the outcome of reading a path says.
pub open spec fn seen_path(path: Result<Vec<PathKey>, ReplayError>) -> Result<
    Seq<KeyView>,
    ReplayError,
> {
    match path {
        Ok(keys) => Ok(keys_of(keys@)),
        Err(error) => Err(error),
    }
}

/// The path of a record.
pub fn object_path(entry: &Json) -> (path: Result<Vec<PathKey>, ReplayError>)
    ensures
        seen_path(path) == entry_path(entry@),
{
    broadcast use json::group_trees;

    let parts = match entry.array_at("k") {
        Some(parts) => parts,
        None => {
            return Err(ReplayError::NoPath);
        },
    };
    let ghost trees = json::trees_of(parts@);
    let mut out: Vec<PathKey> = Vec::new();
    let mut i: usize = 0;
    while i < parts.len()
        invariant
            i <= parts.len(),
            trees == json::trees_of(parts@),
            entry@.items_at("k"@) == Some(trees),
            forall|j: int| 0 <= j < i ==> is_segment(#[trigger] trees[j]),
            out.len() == i,
            forall|j: int| 0 <= j < i ==> (#[trigger] out[j])@ == segment(trees[j]),
        decreases parts.len() - i,
    {
        assert(trees[i as int] == parts[i as int]@);
        match &parts[i] {
            Json::Text(name) => {
                out.push(PathKey::Name(name.clone()));
            },
            Json::UInt(index) => {
                out.push(PathKey::Index(*index));
            },
            _ => {
                assert(!is_segment(trees[i as int]));
                return Err(ReplayError::InvalidSegment);
            },
        }
        i += 1;
    }
    assert(keys_of(out@) =~= trees.map_values(|part: Tree| segment(part)));
    Ok(out)
}

/// The values of a push record.
pub open spec fn push_values(entry: Tree) -> Result<Option<Seq<Tree>>, ReplayError> {
    match entry.field("v"@) {
        None => Ok(None),
        Some(Tree::Array(values)) => Ok(Some(values)),
        Some(_) => Err(ReplayError::PushValueNotArray),
    }
}

/// The start index of a push record.
pub open spec fn push_start(entry: Tree) -> Result<Option<usize>, ReplayError> {
    match entry.field("i"@) {
        None => Ok(None),
        Some(value) => match value.natural() {
            None => Err(ReplayError::PushIndexNotNonNegative),
            Some(index) => if index > usize::MAX {
                Err(ReplayError::PushIndexTooLarge)
            } else {
                Ok(Some(index as usize))
            },
        },
    }
}

/// The state after one record.
pub open spec fn step(state: Option<Tree>, entry: Tree) -> Result<Tree, ReplayError> {
    match entry_kind(entry) {
        None => Err(ReplayError::NoKind),
        Some(kind) => if kind == 0 {
            match entry.field("v"@) {
                Some(value) => Ok(value),
                None => Err(ReplayError::InitialWithoutValue),
            }
        } else if kind == 1 || kind == 2 || kind == 3 {
            match state {
                None => Err(ReplayError::MissingInitial),
                Some(tree) => match entry_path(entry) {
                    Err(error) => Err(error),
                    Ok(path) => if kind == 1 {
                        match entry.field("v"@) {
                            None => Err(ReplayError::SetWithoutValue),
                            Some(value) => tree_set(tree, path, value),
                        }
                    } else if kind == 2 {
                        match push_values(entry) {
                            Err(error) => Err(error),
                            Ok(values) => match push_start(entry) {
                                Err(error) => Err(error),
                                Ok(start) => tree_push(tree, path, values, start),
                            },
                        }
                    } else {
                        tree_delete(tree, path)
                    },
                },
            }
        } else {
            Err(ReplayError::UnknownKind(kind))
        },
    }
}

/// The kind of a record.
pub open spec fn entry_kind(entry: Tree) -> Option<i64> {
    match entry.field("kind"@) {
        Some(value) => value.integer(),
        None => None,
    }
}

/// The state after the records of a log, from a state on. A line that is no
/// JSON document is `None`; as the last line after a state it is taken for a
/// truncated write and ignored.
pub open spec fn replayed_from(state: Option<Tree>, entries: Seq<Option<Tree>>) -> Result<
    Option<Tree>,
    ReplayError,
>
    decreases entries.len(),
{
    if entries.len() == 0 {
        Ok(state)
    } else {
        match entries[0] {
            None => if state is Some && entries.len() == 1 {
                Ok(state)
            } else {
                Err(ReplayError::InvalidEntry)
            },
            Some(entry) => match step(state, entry) {
                Err(error) => Err(error),
                Ok(tree) => replayed_from(Some(tree), entries.skip(1)),
            },
        }
    }
}

/// The session that a log leaves.
pub open spec fn replayed(entries: Seq<Option<Tree>>) -> Result<Tree, ReplayError> {
    if entries.len() == 0 {
        Err(ReplayError::EmptyLog)
    } else {
        match replayed_from(None, entries) {
            Err(error) => Err(error),
            Ok(Some(tree)) => Ok(tree),
            Ok(None) => Err(ReplayError::NoInitialState),
        }
    }
}

/// The documents of the lines of a log that are not blank.
pub open spec fn log_entries(content: Seq<char>) -> Seq<Option<Tree>> {
    document::line_documents(text::content_lines(content))
}

/// The models of documents that may be absent.
pub open spec fn seen_entries(entries: Seq<Option<Json>>) -> Seq<Option<Tree>> {
    entries.map_values(|entry: Option<Json>| document::held(entry))
}

/// What the outcome of a replay says.
pub open spec fn seen_state(state: Result<Json, ReplayError>) -> Result<Tree, ReplayError> {
    match state {
        Ok(json) => Ok(json@),
        Err(error) => Err(error),
    }
}

/// Applies one record to the state before it.
pub fn apply_entry(state: Option<Json>, entry: &Json) -> (after: Result<Json, ReplayError>)
    ensures
        seen_state(after) == step(document::held(state), entry@),
{
    let kind = match entry.get("kind") {
        Some(value) => match value.as_i64() {
            Some(kind) => kind,
            None => {
                return Err(ReplayError::NoKind);
            },
        },
        None => {
            return Err(ReplayError::NoKind);
        },
    };
    if kind == 0 {
        return match entry.get("v") {
            Some(value) => Ok(value.copy()),
            None => Err(ReplayError::InitialWithoutValue),
        };
    }
    if kind != 1 && kind != 2 && kind != 3 {
        return Err(ReplayError::UnknownKind(kind));
    }
    let mut tree = match state {
        Some(tree) => tree,
        None => {
            return Err(ReplayError::MissingInitial);
        },
    };
    let path = match object_path(entry) {
        Ok(path) => path,
        Err(error) => {
            return Err(error);
        },
    };
    let outcome = if kind == 1 {
        match entry.get("v") {
            Some(value) => set_at_path(&mut tree, &path, value.copy()),
            None => Err(ReplayError::SetWithoutValue),
        }
    } else if kind == 2 {
        let values = match entry.get("v") {
            None => None,
            Some(Json::Array(values)) => Some(json::copy_items(values)),
            Some(_) => {
                return Err(ReplayError::PushValueNotArray);
            },
        };
        let start = match entry.get("i") {
            None => None,
            Some(value) => match value.as_u64() {
                None => {
                    return Err(ReplayError::PushIndexNotNonNegative);
                },
                Some(index) => {
                    if index > usize::MAX as u64 {
                        return Err(ReplayError::PushIndexTooLarge);
                    }
                    Some(index as usize)
                },
            },
        };
        push_at_path(&mut tree, &path, values, start)
    } else {
        delete_at_path(&mut tree, &path)
    };
    match outcome {
        Ok(()) => Ok(tree),
        Err(error) => Err(error),
    }
}

/// Replays records, of which one that is no JSON document is `None`.
pub fn replay_entries(entries: &Vec<Option<Json>>) -> (state: Result<Json, ReplayError>)
    ensures
        seen_state(state) == replayed(seen_entries(entries@)),
{
    if entries.len() == 0 {
        return Err(ReplayError::EmptyLog);
    }
    let ghost trees = seen_entries(entries@);
    let mut state: Option<Json> = None;
    let mut i: usize = 0;
    assert(trees.skip(0) =~= trees);
    while i < entries.len()
        invariant
            i <= entries.len(),
            entries.len() > 0,
            trees == seen_entries(entries@),
            replayed_from(None, trees) == replayed_from(
                document::held(state),
                trees.skip(i as int),
            ),
        decreases entries.len() - i,
    {
        let ghost rest = trees.skip(i as int);
        assert(rest[0] == document::held(entries[i as int]));
        assert(rest.skip(1) =~= trees.skip(i + 1));
        match &entries[i] {
            None => {
                if i + 1 == entries.len() {
                    if let Some(tree) = state {
                        return Ok(tree);
                    }
                }
                return Err(ReplayError::InvalidEntry);
            },
            Some(entry) => {
                match apply_entry(state, entry) {
                    Ok(tree) => {
                        state = Some(tree);
                    },
                    Err(error) => {
                        return Err(error);
                    },
                }
            },
        }
        i += 1;
    }
    match state {
        Some(tree) => Ok(tree),
        None => Err(ReplayError::NoInitialState),
    }
}

/// Reconstructs a session from the text of a VS Code chat operation log.
///
/// A malformed last line is treated as an incomplete tail: the last known-good
/// state is returned. A log without an initial snapshot, an invalid mutation,
/// or an unknown operation kind is rejected.
pub fn replay_operation_log(content: &str) -> (state: Result<Json, ReplayError>)
    ensures
        seen_state(state) == replayed(log_entries(content@)),
{
    let lines = text::trimmed_lines(content);
    let mut entries: Vec<Option<Json>> = Vec::new();
    let mut i: usize = 0;
    while i < lines.len()
        invariant
            i <= lines.len(),
            text::texts(lines@) == text::content_lines(content@),
            entries.len() == i,
            forall|j: int|
                0 <= j < i ==> document::held(#[trigger] entries[j]) == document::json_document(
                    lines[j]@,
                ),
        decreases lines.len() - i,
    {
        entries.push(document::parse_json(lines[i].as_str()));
        i += 1;
    }
    assert(seen_entries(entries@) =~= log_entries(content@));
    replay_entries(&entries)
}

} // verus!
