//! What holds of every replay of a chat session log.
use crate::document;
use crate::json::Tree;
use crate::text;
use crate::text::laws;
use crate::vscode_chat;
use crate::vscode_chat::{KeyView, ReplayError};
use vstd::prelude::*;

verus! {

/// The value that a path leads to, if it leads anywhere.
pub open spec fn at_path(tree: Tree, path: Seq<KeyView>) -> Option<Tree>
    decreases path.len(),
{
    if path.len() == 0 {
        Some(tree)
    } else {
        match vscode_chat::child(tree, path[0]) {
            Ok(below) => at_path(below, path.skip(1)),
            Err(_) => None,
        }
    }
}

/// Two paths part when they differ at a segment that both have.
pub open spec fn parted(path: Seq<KeyView>, other: Seq<KeyView>) -> bool {
    exists|i: int| 0 <= i < path.len() && i < other.len() && path[i] != #[trigger] other[i]
}

/// Every line of a log is a document.
pub open spec fn whole(entries: Seq<Option<Tree>>) -> bool {
    forall|i: int| 0 <= i < entries.len() ==> (#[trigger] entries[i]) is Some
}

/// A value replaced under a segment that led somewhere is what the segment then
/// leads to, and other segments lead where they led.
proof fn lemma_with_child(tree: Tree, key: KeyView, value: Tree, other: KeyView)
    requires
        vscode_chat::child(tree, key) is Ok,
    ensures
        vscode_chat::child(vscode_chat::with_child(tree, key, value), key) == Ok::<
            Tree,
            ReplayError,
        >(value),
        other != key ==> vscode_chat::child(vscode_chat::with_child(tree, key, value), other)
            == vscode_chat::child(tree, other),
{
}

/// A set that succeeds puts its value where the path leads.
pub proof fn law_set_is_read_back(tree: Tree, path: Seq<KeyView>, value: Tree, after: Tree)
    requires
        path.len() > 0,
        vscode_chat::tree_set(tree, path, value) == Ok::<Tree, ReplayError>(after),
    ensures
        at_path(after, path) == Some(value),
    decreases path.len(),
{
    if path.len() == 1 {
        assert(path.skip(1).len() == 0);
        assert(at_path(value, path.skip(1)) == Some(value));
    } else {
        let below = vscode_chat::child(tree, path[0])->Ok_0;
        let inner = vscode_chat::changed_below(below, path.skip(1), vscode_chat::set_in(value))->Ok_0;
        law_set_is_read_back(below, path.skip(1), value, inner);
        lemma_with_child(tree, path[0], inner, path[0]);
    }
}

/// A set changes nothing that a parted path leads to.
pub proof fn law_set_keeps_the_rest(
    tree: Tree,
    path: Seq<KeyView>,
    value: Tree,
    after: Tree,
    other: Seq<KeyView>,
)
    requires
        vscode_chat::tree_set(tree, path, value) == Ok::<Tree, ReplayError>(after),
        parted(path, other),
        at_path(tree, other) is Some,
    ensures
        at_path(after, other) == at_path(tree, other),
{
    lemma_change_keeps_the_rest(tree, path, vscode_chat::set_in(value), after, other);
}

/// A delete changes nothing that a parted path leads to.
pub proof fn law_delete_keeps_the_rest(
    tree: Tree,
    path: Seq<KeyView>,
    after: Tree,
    other: Seq<KeyView>,
)
    requires
        vscode_chat::tree_delete(tree, path) == Ok::<Tree, ReplayError>(after),
        parted(path, other),
        at_path(tree, other) is Some,
    ensures
        at_path(after, other) == at_path(tree, other),
{
    lemma_change_keeps_the_rest(tree, path, vscode_chat::delete_in(), after, other);
}

/// A push changes nothing that a parted path leads to.
pub proof fn law_push_keeps_the_rest(
    tree: Tree,
    path: Seq<KeyView>,
    values: Option<Seq<Tree>>,
    start: Option<usize>,
    after: Tree,
    other: Seq<KeyView>,
)
    requires
        vscode_chat::tree_push(tree, path, values, start) == Ok::<Tree, ReplayError>(after),
        parted(path, other),
        at_path(tree, other) is Some,
    ensures
        at_path(after, other) == at_path(tree, other),
{
    lemma_change_keeps_the_rest(tree, path, vscode_chat::push_in(values, start), after, other);
}

/// A change below a parent that keeps what other segments lead to.
pub open spec fn local(change: spec_fn(Tree, KeyView) -> Result<Tree, ReplayError>) -> bool {
    forall|parent: Tree, key: KeyView, other: KeyView|
        other != key && (#[trigger] change(parent, key)) is Ok && (#[trigger] vscode_chat::child(
            parent,
            other,
        )) is Ok ==> vscode_chat::child(change(parent, key)->Ok_0, other) == vscode_chat::child(
            parent,
            other,
        )
}

/// A local change changes nothing that a parted path leads to.
proof fn lemma_change_keeps_the_rest(
    tree: Tree,
    path: Seq<KeyView>,
    change: spec_fn(Tree, KeyView) -> Result<Tree, ReplayError>,
    after: Tree,
    other: Seq<KeyView>,
)
    requires
        path.len() > 0,
        vscode_chat::changed_below(tree, path, change) == Ok::<Tree, ReplayError>(after),
        local(change),
        parted(path, other),
        at_path(tree, other) is Some,
    ensures
        at_path(after, other) == at_path(tree, other),
    decreases path.len(),
{
    let i = choose|i: int| 0 <= i < path.len() && i < other.len() && path[i] != #[trigger] other[i];
    let led = vscode_chat::child(tree, other[0]);
    assert(led is Ok);
    if path.len() == 1 {
        assert(i == 0);
        assert(change(tree, path[0]) == Ok::<Tree, ReplayError>(after));
    } else {
        let below = vscode_chat::child(tree, path[0])->Ok_0;
        let inner = vscode_chat::changed_below(below, path.skip(1), change)->Ok_0;
        lemma_with_child(tree, path[0], inner, other[0]);
        if path[0] == other[0] {
            assert(path.skip(1)[i - 1] != other.skip(1)[i - 1]);
            lemma_change_keeps_the_rest(below, path.skip(1), change, inner, other.skip(1));
        }
    }
}

/// After a delete by name the path leads nowhere; after one by index it leads
/// to null.
pub proof fn law_delete_is_read_back(tree: Tree, path: Seq<KeyView>, after: Tree)
    requires
        path.len() > 0,
        vscode_chat::tree_delete(tree, path) == Ok::<Tree, ReplayError>(after),
    ensures
        at_path(after, path) == if path.last() is Name {
            None
        } else {
            Some(Tree::Null)
        },
    decreases path.len(),
{
    if path.len() == 1 {
        assert(path.last() == path[0]);
        assert(path.skip(1).len() == 0);
        assert(at_path(Tree::Null, path.skip(1)) == Some(Tree::Null));
    } else {
        let below = vscode_chat::child(tree, path[0])->Ok_0;
        let inner = vscode_chat::changed_below(below, path.skip(1), vscode_chat::delete_in())->Ok_0;
        law_delete_is_read_back(below, path.skip(1), inner);
        assert(path.skip(1).last() == path.last());
        lemma_with_child(tree, path[0], inner, path[0]);
    }
}

/// A push without a start index puts its values behind what the array held; an
/// array that was missing counts as empty.
pub proof fn law_push_appends(tree: Tree, path: Seq<KeyView>, values: Seq<Tree>, after: Tree)
    requires
        vscode_chat::tree_push(tree, path, Some(values), None) == Ok::<Tree, ReplayError>(after),
    ensures
        at_path(tree, path) matches Some(held) ==> {
            &&& held is Array
            &&& at_path(after, path) == Some(Tree::Array(held->Array_0 + values))
        },
        at_path(tree, path) is None ==> at_path(after, path) == Some(Tree::Array(values)),
    decreases path.len(),
{
    let change = vscode_chat::push_in(Some(values), None);
    if path.len() == 1 {
        assert(path.skip(1).len() == 0);
        let held = vscode_chat::child(tree, path[0]);
        if held is Ok {
            assert(at_path(held->Ok_0, path.skip(1)) == Some(held->Ok_0));
        }
        let now = vscode_chat::child(after, path[0])->Ok_0;
        assert(at_path(now, path.skip(1)) == Some(now));
        assert(Seq::<Tree>::empty() + values =~= values);
    } else {
        let below = vscode_chat::child(tree, path[0])->Ok_0;
        let inner = vscode_chat::changed_below(below, path.skip(1), change)->Ok_0;
        law_push_appends(below, path.skip(1), values, inner);
        lemma_with_child(tree, path[0], inner, path[0]);
    }
}

/// With the empty path a set and a delete leave the whole as it is.
pub proof fn law_empty_path_changes_nothing(tree: Tree, value: Tree)
    ensures
        vscode_chat::tree_set(tree, Seq::empty(), value) == Ok::<Tree, ReplayError>(tree),
        vscode_chat::tree_delete(tree, Seq::empty()) == Ok::<Tree, ReplayError>(tree),
{
}

/// Replaying more records goes on from the state that the earlier ones left.
pub proof fn law_replay_goes_on(
    state: Option<Tree>,
    entries: Seq<Option<Tree>>,
    more: Seq<Option<Tree>>,
)
    requires
        whole(entries),
    ensures
        vscode_chat::replayed_from(state, entries + more) == match vscode_chat::replayed_from(
            state,
            entries,
        ) {
            Ok(between) => vscode_chat::replayed_from(between, more),
            Err(error) => Err(error),
        },
    decreases entries.len(),
{
    let all = entries + more;
    if entries.len() == 0 {
        assert(all =~= more);
    } else {
        assert(all[0] == entries[0]);
        assert(entries[0] is Some);
        assert(all.skip(1) =~= entries.skip(1) + more);
        match vscode_chat::step(state, entries[0]->Some_0) {
            Ok(tree) => {
                assert(whole(entries.skip(1))) by {
                    assert forall|i: int| 0 <= i < entries.skip(1).len() implies (
                    #[trigger] entries.skip(1)[i]) is Some by {
                        assert(entries.skip(1)[i] == entries[i + 1]);
                    }
                }
                law_replay_goes_on(Some(tree), entries.skip(1), more);
            },
            Err(_) => {},
        }
    }
}

/// A malformed line after a log that replays is ignored.
pub proof fn law_truncated_tail_is_ignored(entries: Seq<Option<Tree>>)
    requires
        whole(entries),
        vscode_chat::replayed(entries) is Ok,
    ensures
        vscode_chat::replayed(entries.push(None)) == vscode_chat::replayed(entries),
{
    let tail = seq![None::<Tree>];
    law_replay_goes_on(None, entries, tail);
    assert(entries + tail =~= entries.push(None));
}

/// A snapshot replaces whatever state the records before it left.
pub proof fn law_snapshot_replaces_the_state(entries: Seq<Option<Tree>>, snapshot: Tree)
    requires
        whole(entries),
        vscode_chat::replayed_from(None, entries) is Ok,
        vscode_chat::entry_kind(snapshot) == Some(0i64),
        snapshot.field("v"@) is Some,
    ensures
        vscode_chat::replayed(entries.push(Some(snapshot))) == Ok::<Tree, ReplayError>(
            snapshot.field("v"@)->Some_0,
        ),
{
    let tail = seq![Some(snapshot)];
    law_replay_goes_on(None, entries, tail);
    assert(entries + tail =~= entries.push(Some(snapshot)));
    let value = snapshot.field("v"@)->Some_0;
    assert(tail.skip(1) =~= Seq::empty());
    assert(vscode_chat::replayed_from(Some(value), Seq::empty()) == Ok::<
        Option<Tree>,
        ReplayError,
    >(Some(value)));
}

/// A malformed line before the last makes the whole log fail.
pub proof fn law_middle_corruption_is_rejected(entries: Seq<Option<Tree>>, at: int)
    requires
        0 <= at < entries.len() - 1,
        entries[at] is None,
    ensures
        vscode_chat::replayed(entries) is Err,
{
    lemma_corruption(None, entries, at);
}

proof fn lemma_corruption(state: Option<Tree>, entries: Seq<Option<Tree>>, at: int)
    requires
        0 <= at < entries.len() - 1,
        entries[at] is None,
    ensures
        vscode_chat::replayed_from(state, entries) is Err,
    decreases at,
{
    if at > 0 && entries[0] is Some {
        match vscode_chat::step(state, entries[0]->Some_0) {
            Ok(tree) => {
                assert(entries.skip(1)[at - 1] == entries[at]);
                lemma_corruption(Some(tree), entries.skip(1), at - 1);
            },
            Err(_) => {},
        }
    }
}

/// A log that does not start with a snapshot is rejected.
pub proof fn law_first_record_is_a_snapshot(entries: Seq<Option<Tree>>)
    requires
        vscode_chat::replayed(entries) is Ok,
    ensures
        entries.len() > 0,
        entries[0] is Some,
        vscode_chat::entry_kind(entries[0]->Some_0) == Some(0i64),
{
}

/// A log with a record of an unknown kind, or of none, is rejected.
pub proof fn law_known_kinds_only(entries: Seq<Option<Tree>>, at: int)
    requires
        vscode_chat::replayed(entries) is Ok,
        0 <= at < entries.len(),
        entries[at] is Some,
    ensures
        vscode_chat::entry_kind(entries[at]->Some_0) matches Some(kind) && 0 <= kind <= 3,
{
    lemma_known_kinds(None, entries, at);
}

proof fn lemma_known_kinds(state: Option<Tree>, entries: Seq<Option<Tree>>, at: int)
    requires
        vscode_chat::replayed_from(state, entries) is Ok,
        0 <= at < entries.len(),
        entries[at] is Some,
    ensures
        vscode_chat::entry_kind(entries[at]->Some_0) matches Some(kind) && 0 <= kind <= 3,
    decreases at,
{
    if at > 0 {
        assert(entries.skip(1)[at - 1] == entries[at]);
        let tree = vscode_chat::step(state, entries[0]->Some_0)->Ok_0;
        lemma_known_kinds(Some(tree), entries.skip(1), at - 1);
    }
}

/// A name leads to the field of an object and an index to the item of an array,
/// counted from zero; anything else leads nowhere.
pub proof fn law_segments_lead_below(
    fields: Map<Seq<char>, Tree>,
    items: Seq<Tree>,
    name: Seq<char>,
    index: u64,
    other: Tree,
)
    ensures
        fields.contains_key(name) ==> at_path(Tree::Object(fields), seq![KeyView::Name(name)])
            == Some(fields[name]),
        !fields.contains_key(name) ==> at_path(Tree::Object(fields), seq![KeyView::Name(name)])
            is None,
        index < items.len() && index <= usize::MAX ==> at_path(
            Tree::Array(items),
            seq![KeyView::Index(index)],
        ) == Some(items[index as int]),
        index >= items.len() ==> at_path(Tree::Array(items), seq![KeyView::Index(index)]) is None,
        !(other is Object) ==> at_path(other, seq![KeyView::Name(name)]) is None,
        !(other is Array) ==> at_path(other, seq![KeyView::Index(index)]) is None,
        at_path(other, Seq::empty()) == Some(other),
{
    let by_name = seq![KeyView::Name(name)];
    let by_index = seq![KeyView::Index(index)];
    assert(by_name.skip(1).len() == 0);
    assert(by_index.skip(1).len() == 0);
    assert(at_path(fields[name], by_name.skip(1)) == Some(fields[name]));
    assert(at_path(items[index as int], by_index.skip(1)) == Some(items[index as int]));
}

/// A path leads on from where its beginning leads.
pub proof fn law_paths_lead_on(tree: Tree, path: Seq<KeyView>, more: Seq<KeyView>)
    ensures
        at_path(tree, path + more) == match at_path(tree, path) {
            Some(below) => at_path(below, more),
            None => None,
        },
    decreases path.len(),
{
    if path.len() == 0 {
        assert(path + more =~= more);
    } else {
        assert((path + more)[0] == path[0]);
        assert((path + more).skip(1) =~= path.skip(1) + more);
        if let Ok(below) = vscode_chat::child(tree, path[0]) {
            law_paths_lead_on(below, path.skip(1), more);
        }
    }
}

/// A change happens to the parent that the path leads to but for its last
/// segment, and succeeds just when it can happen there.
proof fn lemma_change_of_the_parent(
    tree: Tree,
    path: Seq<KeyView>,
    change: spec_fn(Tree, KeyView) -> Result<Tree, ReplayError>,
)
    requires
        path.len() > 0,
    ensures
        vscode_chat::changed_below(tree, path, change) is Ok <==> {
            &&& at_path(tree, path.drop_last()) matches Some(parent)
            &&& change(parent, path.last()) is Ok
        },
        vscode_chat::changed_below(tree, path, change) matches Ok(after) ==> at_path(
            after,
            path.drop_last(),
        ) == Some(change(at_path(tree, path.drop_last())->Some_0, path.last())->Ok_0),
    decreases path.len(),
{
    let above = path.drop_last();
    if path.len() == 1 {
        assert(above =~= Seq::empty());
        assert(path.last() == path[0]);
        assert(at_path(tree, above) == Some(tree));
        if let Ok(after) = change(tree, path[0]) {
            assert(at_path(after, above) == Some(after));
        }
    } else {
        assert(above[0] == path[0]);
        assert(above.skip(1) =~= path.skip(1).drop_last());
        assert(path.skip(1).last() == path.last());
        if let Ok(below) = vscode_chat::child(tree, path[0]) {
            lemma_change_of_the_parent(below, path.skip(1), change);
            if let Ok(inner) = vscode_chat::changed_below(below, path.skip(1), change) {
                lemma_with_child(tree, path[0], inner, path[0]);
            }
        }
    }
}

/// A set succeeds just when its path leads, but for the last segment, to an
/// object and ends with a name, or to an array and ends with an index that can be
/// addressed. An object then has the value under that name and all its other
/// fields; an array has the value at that index, its other items as they were,
/// and nulls where it had to grow.
pub proof fn law_set_changes_its_parent(tree: Tree, path: Seq<KeyView>, value: Tree)
    requires
        path.len() > 0,
    ensures
        vscode_chat::tree_set(tree, path, value) is Ok <==> match (
            at_path(tree, path.drop_last()),
            path.last(),
        ) {
            (Some(Tree::Object(_)), KeyView::Name(_)) => true,
            (Some(Tree::Array(_)), KeyView::Index(index)) => index < usize::MAX,
            _ => false,
        },
        vscode_chat::tree_set(tree, path, value) matches Ok(after) ==> match (
            at_path(tree, path.drop_last())->Some_0,
            at_path(after, path.drop_last()),
            path.last(),
        ) {
            (Tree::Object(old), Some(Tree::Object(now)), KeyView::Name(name)) => now == old.insert(
                name,
                value,
            ),
            (Tree::Array(old), Some(Tree::Array(now)), KeyView::Index(index)) => {
                &&& now.len() == if index < old.len() {
                    old.len() as int
                } else {
                    index + 1
                }
                &&& now[index as int] == value
                &&& forall|j: int|
                    0 <= j < now.len() && j != index ==> #[trigger] now[j] == if j < old.len() {
                        old[j]
                    } else {
                        Tree::Null
                    }
            },
            _ => false,
        },
{
    lemma_change_of_the_parent(tree, path, vscode_chat::set_in(value));
}

/// A delete succeeds just when its path leads, but for the last segment, to an
/// object and ends with a name, or to an array and ends with one of its indices.
/// An object then lacks that name and has all its other fields; an array has null
/// at that index and its other items as they were.
pub proof fn law_delete_changes_its_parent(tree: Tree, path: Seq<KeyView>)
    requires
        path.len() > 0,
    ensures
        vscode_chat::tree_delete(tree, path) is Ok <==> match (
            at_path(tree, path.drop_last()),
            path.last(),
        ) {
            (Some(Tree::Object(_)), KeyView::Name(_)) => true,
            (Some(Tree::Array(old)), KeyView::Index(index)) => index < old.len() && index
                <= usize::MAX,
            _ => false,
        },
        vscode_chat::tree_delete(tree, path) matches Ok(after) ==> match (
            at_path(tree, path.drop_last())->Some_0,
            at_path(after, path.drop_last()),
            path.last(),
        ) {
            (Tree::Object(old), Some(Tree::Object(now)), KeyView::Name(name)) => now == old.remove(
                name,
            ),
            (Tree::Array(old), Some(Tree::Array(now)), KeyView::Index(index)) => {
                &&& now.len() == old.len()
                &&& now[index as int] == Tree::Null
                &&& forall|j: int|
                    0 <= j < now.len() && j != index ==> #[trigger] now[j] == old[j]
            },
            _ => false,
        },
{
    lemma_change_of_the_parent(tree, path, vscode_chat::delete_in());
}

/// Whether an array is another, cut or grown with nulls to a start index, and
/// then some values. Without a start index the other is kept whole.
pub open spec fn splices(
    old: Seq<Tree>,
    values: Option<Seq<Tree>>,
    start: Option<usize>,
    now: Seq<Tree>,
) -> bool {
    let kept = match start {
        Some(index) => index as int,
        None => old.len() as int,
    };
    let more = match values {
        Some(list) => list,
        None => Seq::empty(),
    };
    &&& now.len() == kept + more.len()
    &&& forall|i: int| 0 <= i < kept && i < old.len() ==> #[trigger] now[i] == old[i]
    &&& forall|i: int| old.len() <= i < kept ==> #[trigger] now[i] == Tree::Null
    &&& forall|i: int| kept <= i < now.len() ==> #[trigger] now[i] == more[i - kept]
}

proof fn lemma_spliced(old: Seq<Tree>, values: Option<Seq<Tree>>, start: Option<usize>)
    ensures
        splices(old, values, start, vscode_chat::spliced(old, values, start)),
{
}

/// A push with a start index leaves an array of that many items and its values
/// behind them: the first items are the old ones, nulls stand where the array was
/// shorter, and what stood from the start index on is gone. Without a start index
/// the values come behind all that was there. An array that was missing counts
/// as empty.
pub proof fn law_push_splices(
    tree: Tree,
    path: Seq<KeyView>,
    values: Option<Seq<Tree>>,
    start: Option<usize>,
    after: Tree,
)
    requires
        vscode_chat::tree_push(tree, path, values, start) == Ok::<Tree, ReplayError>(after),
    ensures
        ({
            let old = match at_path(tree, path) {
                Some(held) => held,
                None => Tree::Array(Seq::empty()),
            };
            &&& old is Array
            &&& at_path(after, path) matches Some(Tree::Array(now))
            &&& splices(old->Array_0, values, start, now)
        }),
    decreases path.len(),
{
    let change = vscode_chat::push_in(values, start);
    if path.len() == 1 {
        assert(path.skip(1).len() == 0);
        let held = vscode_chat::child(tree, path[0]);
        if held is Ok {
            assert(at_path(held->Ok_0, path.skip(1)) == Some(held->Ok_0));
            lemma_spliced(held->Ok_0->Array_0, values, start);
        }
        lemma_spliced(Seq::empty(), values, start);
        let now = vscode_chat::child(after, path[0])->Ok_0;
        assert(at_path(now, path.skip(1)) == Some(now));
    } else {
        let below = vscode_chat::child(tree, path[0])->Ok_0;
        let inner = vscode_chat::changed_below(below, path.skip(1), change)->Ok_0;
        law_push_splices(below, path.skip(1), values, start, inner);
        lemma_with_child(tree, path[0], inner, path[0]);
    }
}

/// A push succeeds just when its path ends at an array, or with a name that an
/// object lacks.
pub proof fn law_push_needs_an_array(
    tree: Tree,
    path: Seq<KeyView>,
    values: Option<Seq<Tree>>,
    start: Option<usize>,
)
    requires
        path.len() > 0,
    ensures
        vscode_chat::tree_push(tree, path, values, start) is Ok <==> match at_path(tree, path) {
            Some(held) => held is Array,
            None => match at_path(tree, path.drop_last()) {
                Some(parent) => path.last() is Name && parent is Object,
                None => false,
            },
        },
        vscode_chat::tree_push(tree, Seq::empty(), values, start) is Err,
{
    lemma_change_of_the_parent(tree, path, vscode_chat::push_in(values, start));
    law_paths_lead_on(tree, path.drop_last(), seq![path.last()]);
    assert(path.drop_last() + seq![path.last()] =~= path);
    if let Some(parent) = at_path(tree, path.drop_last()) {
        let last = seq![path.last()];
        assert(last.skip(1) =~= Seq::empty());
        if let Ok(below) = vscode_chat::child(parent, path.last()) {
            assert(at_path(below, Seq::empty()) == Some(below));
        }
    }
}

/// Whether each of some values is the name or the index that a path has there.
pub open spec fn writes(parts: Seq<Tree>, path: Seq<KeyView>) -> bool {
    &&& parts.len() == path.len()
    &&& forall|i: int|
        0 <= i < parts.len() ==> #[trigger] parts[i] == match path[i] {
            KeyView::Name(name) => Tree::Text(name),
            KeyView::Index(index) => Tree::UInt(index),
        }
}

/// The kind of a record says what it does to the state: 1 sets, 2 pushes and 3
/// deletes what its path leads to, with the value or values under `v` and the
/// start index under `i`.
pub proof fn law_kinds_say_what_is_done(
    tree: Tree,
    entry: Tree,
    kind: u64,
    parts: Seq<Tree>,
    path: Seq<KeyView>,
)
    requires
        entry.field("kind"@) == Some(Tree::UInt(kind)),
        entry.field("k"@) == Some(Tree::Array(parts)),
        writes(parts, path),
    ensures
        kind == 1 ==> vscode_chat::step(Some(tree), entry) == match entry.field("v"@) {
            Some(value) => vscode_chat::tree_set(tree, path, value),
            None => Err(ReplayError::SetWithoutValue),
        },
        kind == 2 && entry.field("i"@) is None ==> vscode_chat::step(Some(tree), entry)
            == match entry.field("v"@) {
            Some(Tree::Array(values)) => vscode_chat::tree_push(tree, path, Some(values), None),
            Some(_) => Err(ReplayError::PushValueNotArray),
            None => vscode_chat::tree_push(tree, path, None, None),
        },
        kind == 2 ==> match (entry.field("v"@), entry.field("i"@)) {
            (Some(Tree::Array(values)), Some(Tree::UInt(index))) => index <= usize::MAX
                ==> vscode_chat::step(Some(tree), entry) == vscode_chat::tree_push(
                tree,
                path,
                Some(values),
                Some(index as usize),
            ),
            (None, Some(Tree::UInt(index))) => index <= usize::MAX ==> vscode_chat::step(
                Some(tree),
                entry,
            ) == vscode_chat::tree_push(tree, path, None, Some(index as usize)),
            (_, Some(index)) => !(index is UInt) ==> vscode_chat::step(Some(tree), entry) is Err,
            _ => true,
        },
        kind == 3 ==> vscode_chat::step(Some(tree), entry) == vscode_chat::tree_delete(tree, path),
        kind == 1 || kind == 2 || kind == 3 ==> vscode_chat::step(None, entry) == Err::<
            Tree,
            ReplayError,
        >(ReplayError::MissingInitial),
        kind > 3 ==> vscode_chat::step(Some(tree), entry) is Err && vscode_chat::step(None, entry)
            is Err,
{
    assert forall|i: int| 0 <= i < parts.len() implies vscode_chat::is_segment(
        #[trigger] parts[i],
    ) by {
    }
    assert(parts.map_values(|part: Tree| vscode_chat::segment(part)) =~= path);
}

/// A mutation without a path, or with a segment that is neither a text nor an
/// index, is rejected, and so is a record without a kind.
pub proof fn law_paths_are_names_and_indices(tree: Tree, entry: Tree, at: int)
    ensures
        entry.field("kind"@) is None ==> vscode_chat::step(Some(tree), entry) is Err,
        (entry.field("kind"@) == Some(Tree::UInt(1)) || entry.field("kind"@) == Some(Tree::UInt(2))
            || entry.field("kind"@) == Some(Tree::UInt(3))) ==> match entry.field("k"@) {
            Some(Tree::Array(parts)) => 0 <= at < parts.len() && !(parts[at] is Text)
                && !(parts[at] is UInt) ==> vscode_chat::step(Some(tree), entry) is Err,
            _ => vscode_chat::step(Some(tree), entry) is Err,
        },
{
    if let Some(Tree::Array(parts)) = entry.field("k"@) {
        if 0 <= at < parts.len() && !(parts[at] is Text) && !(parts[at] is UInt) {
            assert(!vscode_chat::is_segment(parts[at]));
        }
    }
}

/// A snapshot alone leaves its value; a log without records is rejected.
pub proof fn law_a_snapshot_is_a_log(snapshot: Tree, value: Tree)
    requires
        snapshot.field("kind"@) == Some(Tree::UInt(0)),
        snapshot.field("v"@) == Some(value),
    ensures
        vscode_chat::replayed(seq![Some(snapshot)]) == Ok::<Tree, ReplayError>(value),
        vscode_chat::replayed(Seq::empty()) is Err,
{
    let log = seq![Some(snapshot)];
    assert(log.skip(1) =~= Seq::empty());
    assert(vscode_chat::replayed_from(Some(value), Seq::empty()) == Ok::<
        Option<Tree>,
        ReplayError,
    >(Some(value)));
}

/// One more record does to the state that a log leaves what the record says, and
/// a log in which one record fails fails.
pub proof fn law_records_follow_one_another(entries: Seq<Option<Tree>>, entry: Tree, state: Tree)
    requires
        whole(entries),
        vscode_chat::replayed(entries) == Ok::<Tree, ReplayError>(state),
    ensures
        vscode_chat::replayed(entries.push(Some(entry))) == vscode_chat::step(Some(state), entry),
{
    let tail = seq![Some(entry)];
    law_replay_goes_on(None, entries, tail);
    assert(entries + tail =~= entries.push(Some(entry)));
    assert(tail.skip(1) =~= Seq::empty());
    if let Ok(after) = vscode_chat::step(Some(state), entry) {
        assert(vscode_chat::replayed_from(Some(after), Seq::empty()) == Ok::<
            Option<Tree>,
            ReplayError,
        >(Some(after)));
    }
}

/// The records of a log are the documents of its lines that are not blank, one
/// for each and in order.
pub proof fn law_a_log_has_a_record_a_line(content: Seq<char>)
    ensures
        vscode_chat::log_entries(content) == text::lines_of(content).filter(
            |line: Seq<char>| !laws::all_white(line),
        ).map_values(|line: Seq<char>| document::json_document(text::trimmed(line))),
{
    let lines = text::lines_of(content);
    let kept = lines.filter(|line: Seq<char>| !laws::all_white(line));
    laws::law_blank_lines_are_left_out(lines);
    assert(vscode_chat::log_entries(content) =~= kept.map_values(
        |line: Seq<char>| document::json_document(text::trimmed(line)),
    ));
}

} // verus!
