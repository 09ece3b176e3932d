//! Lists in the order of their paths.
use crate::paths;
use crate::paths::FilePath;
use crate::text;
use vstd::prelude::*;

verus! {

/// Something that stands at a path.
pub trait Located: View + Sized {
    /// The path of the model.
    spec fn place(view: Self::V) -> Seq<Seq<char>>;

    /// The path.
    fn path(&self) -> (path: &FilePath)
        ensures
            path@ == Self::place(self@),
    ;
}

impl Located for FilePath {
    open spec fn place(view: Seq<Seq<char>>) -> Seq<Seq<char>> {
        view
    }

    fn path(&self) -> (path: &FilePath) {
        self
    }
}

/// The models of a list.
pub open spec fn seen<T: Located>(list: Seq<T>) -> Seq<T::V> {
    list.map_values(|item: T| item@)
}

/// A list with an item put behind the last one that does not come after it.
pub open spec fn placed<T: Located>(list: Seq<T::V>, item: T::V) -> Seq<T::V>
    decreases list.len(),
{
    if list.len() > 0 && paths::path_less(T::place(item), T::place(list.last())) {
        placed::<T>(list.drop_last(), item).push(list.last())
    } else {
        list.push(item)
    }
}

/// A list brought into the order of its paths; items with one path keep their
/// order.
pub open spec fn ordered<T: Located>(list: Seq<T::V>) -> Seq<T::V>
    decreases list.len(),
{
    if list.len() == 0 {
        Seq::empty()
    } else {
        placed::<T>(ordered::<T>(list.drop_last()), list.last())
    }
}

/// Whether some item of a list stands at a path.
pub open spec fn taken<T: Located>(list: Seq<T::V>, path: Seq<Seq<char>>) -> bool {
    exists|i: int| 0 <= i < list.len() && #[trigger] T::place(list[i]) == path
}

/// A list brought into the order of its paths, with only the first item at
/// each path.
pub open spec fn distinct<T: Located>(list: Seq<T::V>) -> Seq<T::V>
    decreases list.len(),
{
    if list.len() == 0 {
        Seq::empty()
    } else {
        let before = distinct::<T>(list.drop_last());
        if taken::<T>(before, T::place(list.last())) {
            before
        } else {
            placed::<T>(before, list.last())
        }
    }
}

/// Only the first item at each path, in the order of the list.
pub open spec fn once<T: Located>(list: Seq<T::V>) -> Seq<T::V>
    decreases list.len(),
{
    if list.len() == 0 {
        Seq::empty()
    } else {
        let before = once::<T>(list.drop_last());
        if taken::<T>(before, T::place(list.last())) {
            before
        } else {
            before.push(list.last())
        }
    }
}

/// No item comes before an earlier one.
pub open spec fn sorted<T: Located>(list: Seq<T::V>) -> bool {
    forall|i: int, j: int|
        0 <= i < j < list.len() ==> !paths::path_less(
            #[trigger] T::place(list[j]),
            #[trigger] T::place(list[i]),
        )
}

/// Each item comes before the later ones.
pub open spec fn strictly_sorted<T: Located>(list: Seq<T::V>) -> bool {
    forall|i: int, j: int|
        0 <= i < j < list.len() ==> paths::path_less(
            #[trigger] T::place(list[i]),
            #[trigger] T::place(list[j]),
        )
}

proof fn lemma_text_order(a: Seq<char>, b: Seq<char>, c: Seq<char>)
    ensures
        !paths::text_less(a, a),
        a != b ==> paths::text_less(a, b) || paths::text_less(b, a),
        paths::text_less(a, b) ==> !paths::text_less(b, a),
        paths::text_less(a, b) && paths::text_less(b, c) ==> paths::text_less(a, c),
    decreases a.len() + b.len() + c.len(),
{
    if a.len() > 0 && b.len() > 0 && a[0] == b[0] {
        if a.skip(1) == b.skip(1) {
            assert(a =~= seq![a[0]] + a.skip(1));
            assert(b =~= seq![b[0]] + b.skip(1));
        }
    }
    if a.len() == 0 && b.len() == 0 {
        assert(a =~= b);
    }
    let x = if a.len() > 0 {
        a.skip(1)
    } else {
        a
    };
    let y = if b.len() > 0 {
        b.skip(1)
    } else {
        b
    };
    let z = if c.len() > 0 {
        c.skip(1)
    } else {
        c
    };
    if a.len() + b.len() + c.len() > 0 {
        lemma_text_order(x, y, z);
    }
}

proof fn lemma_part_order(a: Seq<char>, b: Seq<char>, c: Seq<char>)
    ensures
        !paths::part_less(a, a),
        a != b ==> paths::part_less(a, b) || paths::part_less(b, a),
        paths::part_less(a, b) ==> !paths::part_less(b, a),
        paths::part_less(a, b) && paths::part_less(b, c) ==> paths::part_less(a, c),
{
    lemma_text_order(a, b, c);
    lemma_text_order(b, a, c);
}

/// The order of paths is total: a path does not come before itself, of two
/// different ones just one comes before the other, and what comes before a path
/// comes before what follows that one.
pub proof fn law_paths_are_ordered(
    a: Seq<Seq<char>>,
    b: Seq<Seq<char>>,
    c: Seq<Seq<char>>,
)
    ensures
        !paths::path_less(a, a),
        a != b ==> paths::path_less(a, b) || paths::path_less(b, a),
        paths::path_less(a, b) ==> !paths::path_less(b, a),
        paths::path_less(a, b) && paths::path_less(b, c) ==> paths::path_less(a, c),
    decreases a.len() + b.len() + c.len(),
{
    if a.len() > 0 && b.len() > 0 && a[0] == b[0] {
        if a.skip(1) == b.skip(1) {
            assert(a =~= seq![a[0]] + a.skip(1));
            assert(b =~= seq![b[0]] + b.skip(1));
        }
    }
    if a.len() == 0 && b.len() == 0 {
        assert(a =~= b);
    }
    if a.len() > 0 && b.len() > 0 {
        lemma_part_order(a[0], b[0], b[0]);
        if c.len() > 0 {
            lemma_part_order(a[0], b[0], c[0]);
        }
    }
    let x = if a.len() > 0 {
        a.skip(1)
    } else {
        a
    };
    let y = if b.len() > 0 {
        b.skip(1)
    } else {
        b
    };
    let z = if c.len() > 0 {
        c.skip(1)
    } else {
        c
    };
    if a.len() + b.len() + c.len() > 0 {
        law_paths_are_ordered(x, y, z);
    }
}

/// Equal beginnings decide nothing.
proof fn lemma_text_skip(a: Seq<char>, b: Seq<char>, k: int)
    requires
        0 <= k <= a.len(),
        k <= b.len(),
        forall|j: int| 0 <= j < k ==> a[j] == b[j],
    ensures
        paths::text_less(a, b) == paths::text_less(a.skip(k), b.skip(k)),
    decreases k,
{
    if k == 0 {
        assert(a.skip(0) =~= a);
        assert(b.skip(0) =~= b);
    } else {
        assert(a[0] == b[0]);
        assert forall|j: int| 0 <= j < k - 1 implies a.skip(1)[j] == b.skip(1)[j] by {
            assert(a[j + 1] == b[j + 1]);
        }
        lemma_text_skip(a.skip(1), b.skip(1), k - 1);
        assert(a.skip(1).skip(k - 1) =~= a.skip(k));
        assert(b.skip(1).skip(k - 1) =~= b.skip(k));
    }
}

/// Equal beginnings decide nothing.
proof fn lemma_path_skip(a: Seq<Seq<char>>, b: Seq<Seq<char>>, k: int)
    requires
        0 <= k <= a.len(),
        k <= b.len(),
        forall|j: int| 0 <= j < k ==> a[j] == b[j],
    ensures
        paths::path_less(a, b) == paths::path_less(a.skip(k), b.skip(k)),
    decreases k,
{
    if k == 0 {
        assert(a.skip(0) =~= a);
        assert(b.skip(0) =~= b);
    } else {
        assert(a[0] == b[0]);
        assert forall|j: int| 0 <= j < k - 1 implies a.skip(1)[j] == b.skip(1)[j] by {
            assert(a[j + 1] == b[j + 1]);
        }
        lemma_path_skip(a.skip(1), b.skip(1), k - 1);
        assert(a.skip(1).skip(k - 1) =~= a.skip(k));
        assert(b.skip(1).skip(k - 1) =~= b.skip(k));
    }
}

/// Whether a text comes before another.
fn text_before(a: &str, b: &str) -> (less: bool)
    ensures
        less == paths::text_less(a@, b@),
{
    let x = text::chars_of(a);
    let y = text::chars_of(b);
    let mut i: usize = 0;
    while i < x.len() && i < y.len()
        invariant
            i <= x.len(),
            i <= y.len(),
            x@ == a@,
            y@ == b@,
            forall|j: int| 0 <= j < i ==> x@[j] == y@[j],
        decreases x.len() - i,
    {
        if x[i] != y[i] {
            proof {
                lemma_text_skip(a@, b@, i as int);
            }
            return x[i] < y[i];
        }
        i += 1;
    }
    proof {
        lemma_text_skip(a@, b@, i as int);
    }
    i < y.len()
}

/// The rank of a part of a path.
fn rank_of(part: &str) -> (out: u8)
    ensures
        out == paths::rank(part@),
{
    if text::same_text(part, "/") {
        0
    } else if text::same_text(part, ".") {
        1
    } else if text::same_text(part, "..") {
        2
    } else {
        3
    }
}

/// Whether a part of a path comes before another.
fn part_before(a: &str, b: &str) -> (less: bool)
    ensures
        less == paths::part_less(a@, b@),
{
    let x = rank_of(a);
    let y = rank_of(b);
    x < y || (x == y && text_before(a, b))
}

/// Whether a path comes before another.
pub fn path_before(a: &FilePath, b: &FilePath) -> (less: bool)
    ensures
        less == paths::path_less(a@, b@),
{
    let mut i: usize = 0;
    while i < a.parts.len() && i < b.parts.len()
        invariant
            i <= a.parts.len(),
            i <= b.parts.len(),
            forall|j: int| 0 <= j < i ==> a@[j] == b@[j],
        decreases a.parts.len() - i,
    {
        let x = a.parts[i].as_str();
        let y = b.parts[i].as_str();
        assert(a@[i as int] == x@ && b@[i as int] == y@);
        if !text::same_text(x, y) {
            proof {
                lemma_path_skip(a@, b@, i as int);
            }
            return part_before(x, y);
        }
        i += 1;
    }
    proof {
        lemma_path_skip(a@, b@, i as int);
    }
    i < b.parts.len()
}

/// Where an item is put behind all that does not come after it.
proof fn lemma_placed<T: Located>(list: Seq<T::V>, item: T::V, at: int)
    requires
        0 <= at <= list.len(),
        at > 0 ==> !paths::path_less(T::place(item), T::place(list[at - 1])),
        forall|j: int|
            at <= j < list.len() ==> paths::path_less(
                T::place(item),
                #[trigger] T::place(list[j]),
            ),
    ensures
        placed::<T>(list, item) == list.insert(at, item),
    decreases list.len(),
{
    if at < list.len() {
        let before = list.drop_last();
        assert(T::place(list[list.len() - 1]) == T::place(list.last()));
        assert forall|j: int| at <= j < before.len() implies paths::path_less(
            T::place(item),
            #[trigger] T::place(before[j]),
        ) by {
            assert(T::place(before[j]) == T::place(list[j]));
        }
        lemma_placed::<T>(before, item, at);
        assert(list.insert(at, item) =~= before.insert(at, item).push(list.last()));
    } else {
        assert(list.insert(at, item) =~= list.push(item));
    }
}

/// Puts an item behind the last one that does not come after it.
pub fn place_in<T: Located>(list: &mut Vec<T>, item: T)
    ensures
        seen::<T>(final(list)@) == placed::<T>(seen::<T>(old(list)@), item@),
{
    let ghost before = seen::<T>(list@);
    let mut at: usize = list.len();
    while at > 0 && path_before(item.path(), list[at - 1].path())
        invariant
            at <= list.len(),
            before == seen::<T>(list@),
            forall|j: int|
                at <= j < list.len() ==> paths::path_less(
                    T::place(item@),
                    #[trigger] T::place(before[j]),
                ),
        decreases at,
    {
        assert(before[at - 1] == list[at - 1]@);
        at -= 1;
    }
    proof {
        if at > 0 {
            assert(before[at - 1] == list[at - 1]@);
        }
        lemma_placed::<T>(before, item@, at as int);
    }
    list.insert(at, item);
    assert(seen::<T>(list@) =~= before.insert(at as int, item@));
}

/// Whether some item of a list stands at a path.
pub fn is_taken<T: Located>(list: &Vec<T>, path: &FilePath) -> (yes: bool)
    ensures
        yes == taken::<T>(seen::<T>(list@), path@),
{
    let ghost all = seen::<T>(list@);
    let mut i: usize = 0;
    while i < list.len()
        invariant
            i <= list.len(),
            all == seen::<T>(list@),
            forall|j: int| 0 <= j < i ==> #[trigger] T::place(all[j]) != path@,
        decreases list.len() - i,
    {
        assert(all[i as int] == list[i as int]@);
        if list[i].path().same(path) {
            assert(T::place(all[i as int]) == path@);
            return true;
        }
        i += 1;
    }
    false
}

/// Brings a list into the order of its paths.
pub fn in_order<T: Located>(list: Vec<T>) -> (out: Vec<T>)
    ensures
        seen::<T>(out@) == ordered::<T>(seen::<T>(list@)),
{
    let ghost all = seen::<T>(list@);
    let mut out: Vec<T> = Vec::new();
    for item in it: list
        invariant
            it.seq() == list@,
            all == seen::<T>(list@),
            seen::<T>(out@) =~= ordered::<T>(all.take(it.index() as int)),
    {
        assert(all.take(it.index() + 1).drop_last() =~= all.take(it.index() as int));
        assert(all.take(it.index() + 1).last() == item@);
        place_in(&mut out, item);
    }
    assert(all.take(all.len() as int) =~= all);
    out
}

/// Brings a list into the order of its paths, with only the first item at each
/// path.
pub fn in_order_once<T: Located>(list: Vec<T>) -> (out: Vec<T>)
    ensures
        seen::<T>(out@) == distinct::<T>(seen::<T>(list@)),
{
    let ghost all = seen::<T>(list@);
    let mut out: Vec<T> = Vec::new();
    for item in it: list
        invariant
            it.seq() == list@,
            all == seen::<T>(list@),
            seen::<T>(out@) =~= distinct::<T>(all.take(it.index() as int)),
    {
        assert(all.take(it.index() + 1).drop_last() =~= all.take(it.index() as int));
        assert(all.take(it.index() + 1).last() == item@);
        if !is_taken(&out, item.path()) {
            place_in(&mut out, item);
        }
    }
    assert(all.take(all.len() as int) =~= all);
    out
}

/// Only the first item at each path, in the order of the list.
pub fn keep_once<T: Located>(list: Vec<T>) -> (out: Vec<T>)
    ensures
        seen::<T>(out@) == once::<T>(seen::<T>(list@)),
{
    let ghost all = seen::<T>(list@);
    let mut out: Vec<T> = Vec::new();
    for item in it: list
        invariant
            it.seq() == list@,
            all == seen::<T>(list@),
            seen::<T>(out@) =~= once::<T>(all.take(it.index() as int)),
    {
        let ghost before = seen::<T>(out@);
        assert(all.take(it.index() + 1).drop_last() =~= all.take(it.index() as int));
        assert(all.take(it.index() + 1).last() == item@);
        if !is_taken(&out, item.path()) {
            out.push(item);
            assert(seen::<T>(out@) =~= before.push(item@));
        }
    }
    assert(all.take(all.len() as int) =~= all);
    out
}

/// What a list holds once an item is put in: what it held, and the item.
proof fn lemma_placed_members<T: Located>(list: Seq<T::V>, item: T::V)
    ensures
        placed::<T>(list, item).len() == list.len() + 1,
        placed::<T>(list, item).to_multiset() == list.to_multiset().insert(item),
        forall|i: int|
            0 <= i < list.len() + 1 ==> #[trigger] placed::<T>(list, item)[i] == item
                || list.contains(placed::<T>(list, item)[i]),
        placed::<T>(list, item).contains(item),
        forall|i: int| 0 <= i < list.len() ==> placed::<T>(list, item).contains(#[trigger] list[i]),
    decreases list.len(),
{
    broadcast use vstd::seq_lib::group_to_multiset_ensures;

    let out = placed::<T>(list, item);
    if list.len() > 0 && paths::path_less(T::place(item), T::place(list.last())) {
        let before = list.drop_last();
        let inner = placed::<T>(before, item);
        lemma_placed_members::<T>(before, item);
        assert(list =~= before.push(list.last()));
        assert(out == inner.push(list.last()));
        assert(out.to_multiset() =~= list.to_multiset().insert(item));
        assert forall|i: int| 0 <= i < list.len() + 1 implies #[trigger] out[i] == item
            || list.contains(out[i]) by {
            if i < inner.len() {
                assert(out[i] == inner[i]);
                if inner[i] != item {
                    let k = choose|k: int| 0 <= k < before.len() && before[k] == inner[i];
                    assert(list[k] == out[i]);
                }
            } else {
                assert(list[list.len() - 1] == out[i]);
            }
        }
        let k = choose|k: int| 0 <= k < inner.len() && inner[k] == item;
        assert(out[k] == item);
        assert forall|i: int| 0 <= i < list.len() implies out.contains(#[trigger] list[i]) by {
            if i < before.len() {
                assert(inner.contains(before[i]));
                let j = choose|j: int| 0 <= j < inner.len() && inner[j] == before[i];
                assert(out[j] == list[i]);
            } else {
                assert(out[out.len() - 1] == list[i]);
            }
        }
    } else {
        assert(out == list.push(item));
        assert(out[list.len() as int] == item);
        assert forall|i: int| 0 <= i < list.len() implies out.contains(#[trigger] list[i]) by {
            assert(out[i] == list[i]);
        }
        assert forall|i: int| 0 <= i < list.len() + 1 implies #[trigger] out[i] == item
            || list.contains(out[i]) by {
            if i < list.len() {
                assert(list[i] == out[i]);
            }
        }
    }
}

/// Putting an item in keeps a list in order.
proof fn lemma_placed_sorted<T: Located>(list: Seq<T::V>, item: T::V)
    requires
        sorted::<T>(list),
    ensures
        sorted::<T>(placed::<T>(list, item)),
        strictly_sorted::<T>(list) && !taken::<T>(list, T::place(item)) ==> strictly_sorted::<T>(
            placed::<T>(list, item),
        ),
    decreases list.len(),
{
    let out = placed::<T>(list, item);
    let new = T::place(item);
    let strict = strictly_sorted::<T>(list) && !taken::<T>(list, new);
    if list.len() > 0 && paths::path_less(new, T::place(list.last())) {
        let before = list.drop_last();
        let last = list.last();
        assert(sorted::<T>(before)) by {
            assert forall|i: int, j: int| 0 <= i < j < before.len() implies !paths::path_less(
                #[trigger] T::place(before[j]),
                #[trigger] T::place(before[i]),
            ) by {
                assert(T::place(before[i]) == T::place(list[i]));
                assert(T::place(before[j]) == T::place(list[j]));
            }
        }
        if strict {
            assert(strictly_sorted::<T>(before)) by {
                assert forall|i: int, j: int| 0 <= i < j < before.len() implies paths::path_less(
                    #[trigger] T::place(before[i]),
                    #[trigger] T::place(before[j]),
                ) by {
                    assert(T::place(before[i]) == T::place(list[i]));
                    assert(T::place(before[j]) == T::place(list[j]));
                }
            }
            assert(!taken::<T>(before, new)) by {
                if taken::<T>(before, new) {
                    let k = choose|k: int|
                        0 <= k < before.len() && #[trigger] T::place(before[k]) == new;
                    assert(T::place(list[k]) == new);
                }
            }
        }
        lemma_placed_sorted::<T>(before, item);
        lemma_placed_members::<T>(before, item);
        let inner = placed::<T>(before, item);
        assert(out == inner.push(last));
        law_paths_are_ordered(new, T::place(last), new);
        assert forall|i: int| 0 <= i < inner.len() implies !paths::path_less(
            T::place(last),
            #[trigger] T::place(inner[i]),
        ) && (strict ==> paths::path_less(T::place(inner[i]), T::place(last))) by {
            if inner[i] != item {
                let k = choose|k: int| 0 <= k < before.len() && before[k] == inner[i];
                assert(T::place(list[k]) == T::place(inner[i]));
                assert(T::place(list[list.len() - 1]) == T::place(last));
            }
        }
        assert forall|i: int, j: int| 0 <= i < j < out.len() implies !paths::path_less(
            #[trigger] T::place(out[j]),
            #[trigger] T::place(out[i]),
        ) && (strict ==> paths::path_less(T::place(out[i]), T::place(out[j]))) by {
            assert(T::place(out[i]) == T::place(inner[i]));
            if j < inner.len() {
                assert(T::place(out[j]) == T::place(inner[j]));
            }
        }
    } else {
        assert(out == list.push(item));
        assert forall|i: int| 0 <= i < list.len() implies !paths::path_less(
            new,
            #[trigger] T::place(list[i]),
        ) && (strict ==> paths::path_less(T::place(list[i]), new)) by {
            let last = T::place(list[list.len() - 1]);
            law_paths_are_ordered(new, T::place(list[i]), last);
            law_paths_are_ordered(T::place(list[i]), last, new);
            law_paths_are_ordered(last, T::place(list[i]), new);
            if strict {
                assert(T::place(list[i]) != new);
            }
        }
        assert forall|i: int, j: int| 0 <= i < j < out.len() implies !paths::path_less(
            #[trigger] T::place(out[j]),
            #[trigger] T::place(out[i]),
        ) && (strict ==> paths::path_less(T::place(out[i]), T::place(out[j]))) by {
            assert(T::place(out[i]) == T::place(list[i]));
            if j < list.len() {
                assert(T::place(out[j]) == T::place(list[j]));
            }
        }
    }
}

/// Bringing a list into order keeps every item, as often as it stood there, and
/// no item then comes before an earlier one.
pub proof fn law_ordering_sorts<T: Located>(list: Seq<T::V>)
    ensures
        sorted::<T>(ordered::<T>(list)),
        ordered::<T>(list).to_multiset() == list.to_multiset(),
        ordered::<T>(list).len() == list.len(),
    decreases list.len(),
{
    broadcast use vstd::seq_lib::group_to_multiset_ensures;

    if list.len() == 0 {
        assert(ordered::<T>(list) =~= list);
    } else {
        law_ordering_sorts::<T>(list.drop_last());
        lemma_placed_sorted::<T>(ordered::<T>(list.drop_last()), list.last());
        lemma_placed_members::<T>(ordered::<T>(list.drop_last()), list.last());
        assert(list =~= list.drop_last().push(list.last()));
    }
}

/// Bringing a list into order with one item for each path leaves the paths
/// ascending, takes no item that was not there, and drops no path.
pub proof fn law_distinct_keeps_each_path_once<T: Located>(list: Seq<T::V>)
    ensures
        strictly_sorted::<T>(distinct::<T>(list)),
        forall|i: int|
            0 <= i < distinct::<T>(list).len() ==> list.contains(#[trigger] distinct::<T>(list)[i]),
        forall|path: Seq<Seq<char>>|
            #[trigger] taken::<T>(distinct::<T>(list), path) <==> taken::<T>(list, path),
    decreases list.len(),
{
    if list.len() > 0 {
        let earlier = list.drop_last();
        let before = distinct::<T>(earlier);
        let item = list.last();
        let new = T::place(item);
        let out = distinct::<T>(list);
        law_distinct_keeps_each_path_once::<T>(earlier);
        assert(sorted::<T>(before)) by {
            assert forall|i: int, j: int| 0 <= i < j < before.len() implies !paths::path_less(
                #[trigger] T::place(before[j]),
                #[trigger] T::place(before[i]),
            ) by {
                law_paths_are_ordered(T::place(before[i]), T::place(before[j]), new);
            }
        }
        lemma_placed_sorted::<T>(before, item);
        lemma_placed_members::<T>(before, item);
        assert(list[list.len() - 1] == item);
        assert forall|x: T::V| earlier.contains(x) implies list.contains(x) by {
            let k = choose|k: int| 0 <= k < earlier.len() && earlier[k] == x;
            assert(list[k] == x);
        }
        assert forall|i: int| 0 <= i < out.len() implies list.contains(#[trigger] out[i]) by {
            if !taken::<T>(before, new) && out[i] != item {
                let k = choose|k: int| 0 <= k < before.len() && before[k] == out[i];
                assert(earlier.contains(before[k]));
            } else if taken::<T>(before, new) {
                assert(earlier.contains(before[i]));
            }
        }
        assert forall|path: Seq<Seq<char>>| #[trigger] taken::<T>(out, path) <==> taken::<T>(
            list,
            path,
        ) by {
            if taken::<T>(list, path) {
                let k = choose|k: int| 0 <= k < list.len() && #[trigger] T::place(list[k]) == path;
                if k < earlier.len() {
                    assert(T::place(earlier[k]) == path);
                    assert(taken::<T>(earlier, path));
                    assert(taken::<T>(before, path));
                    let m = choose|m: int|
                        0 <= m < before.len() && #[trigger] T::place(before[m]) == path;
                    if !taken::<T>(before, new) {
                        assert(out.contains(before[m]));
                        let n = choose|n: int| 0 <= n < out.len() && out[n] == before[m];
                        assert(T::place(out[n]) == path);
                    }
                } else if !taken::<T>(before, new) {
                    let n = choose|n: int| 0 <= n < out.len() && out[n] == item;
                    assert(T::place(out[n]) == path);
                }
            }
            if taken::<T>(out, path) {
                let n = choose|n: int| 0 <= n < out.len() && #[trigger] T::place(out[n]) == path;
                assert(list.contains(out[n]));
                let k = choose|k: int| 0 <= k < list.len() && list[k] == out[n];
                assert(T::place(list[k]) == path);
            }
        }
    }
}

/// Keeping the first item at each path takes no item that was not there, leaves
/// no two at one path, and drops no path.
pub proof fn law_once_keeps_each_path<T: Located>(list: Seq<T::V>)
    ensures
        forall|i: int, j: int|
            0 <= i < j < once::<T>(list).len() ==> #[trigger] T::place(once::<T>(list)[i])
                != #[trigger] T::place(once::<T>(list)[j]),
        forall|i: int|
            0 <= i < once::<T>(list).len() ==> list.contains(#[trigger] once::<T>(list)[i]),
        forall|path: Seq<Seq<char>>|
            #[trigger] taken::<T>(once::<T>(list), path) <==> taken::<T>(list, path),
    decreases list.len(),
{
    if list.len() > 0 {
        let earlier = list.drop_last();
        let before = once::<T>(earlier);
        let item = list.last();
        let out = once::<T>(list);
        law_once_keeps_each_path::<T>(earlier);
        assert(list[list.len() - 1] == item);
        assert forall|i: int, j: int| 0 <= i < j < out.len() implies #[trigger] T::place(out[i])
            != #[trigger] T::place(out[j]) by {
            assert(T::place(out[i]) == T::place(before[i]));
            if j < before.len() {
                assert(T::place(out[j]) == T::place(before[j]));
            }
        }
        assert forall|i: int| 0 <= i < out.len() implies list.contains(#[trigger] out[i]) by {
            if i < before.len() {
                assert(earlier.contains(before[i]));
                let k = choose|k: int| 0 <= k < earlier.len() && earlier[k] == before[i];
                assert(list[k] == out[i]);
            }
        }
        assert forall|path: Seq<Seq<char>>| #[trigger] taken::<T>(out, path) <==> taken::<T>(
            list,
            path,
        ) by {
            if taken::<T>(list, path) {
                let k = choose|k: int| 0 <= k < list.len() && #[trigger] T::place(list[k]) == path;
                if k < earlier.len() {
                    assert(T::place(earlier[k]) == path);
                    assert(taken::<T>(earlier, path));
                    assert(taken::<T>(before, path));
                    let m = choose|m: int|
                        0 <= m < before.len() && #[trigger] T::place(before[m]) == path;
                    assert(T::place(out[m]) == path);
                } else if !taken::<T>(before, path) {
                    assert(T::place(out[out.len() - 1]) == path);
                }
            }
            if taken::<T>(out, path) {
                let n = choose|n: int| 0 <= n < out.len() && #[trigger] T::place(out[n]) == path;
                assert(list.contains(out[n]));
                let k = choose|k: int| 0 <= k < list.len() && list[k] == out[n];
                assert(T::place(list[k]) == path);
            }
        }
    }
}

/// Keeping the first item at each path keeps the same items, whether or not the
/// list is brought into order.
pub proof fn law_order_does_not_choose<T: Located>(list: Seq<T::V>)
    ensures
        once::<T>(list).len() == distinct::<T>(list).len(),
        forall|i: int|
            0 <= i < once::<T>(list).len() ==> distinct::<T>(list).contains(
                #[trigger] once::<T>(list)[i],
            ),
        forall|i: int|
            0 <= i < distinct::<T>(list).len() ==> once::<T>(list).contains(
                #[trigger] distinct::<T>(list)[i],
            ),
    decreases list.len(),
{
    if list.len() > 0 {
        let earlier = list.drop_last();
        let item = list.last();
        let kept = once::<T>(earlier);
        let sorted_kept = distinct::<T>(earlier);
        let first = once::<T>(list);
        let second = distinct::<T>(list);
        law_order_does_not_choose::<T>(earlier);
        law_once_keeps_each_path::<T>(earlier);
        law_distinct_keeps_each_path_once::<T>(earlier);
        lemma_placed_members::<T>(sorted_kept, item);
        let path = T::place(item);
        assert(taken::<T>(kept, path) <==> taken::<T>(earlier, path));
        assert(taken::<T>(sorted_kept, path) <==> taken::<T>(earlier, path));
        if !taken::<T>(earlier, path) {
            assert(first == kept.push(item));
            assert(second == placed::<T>(sorted_kept, item));
            assert(first[kept.len() as int] == item);
            assert forall|i: int| 0 <= i < first.len() implies second.contains(
                #[trigger] first[i],
            ) by {
                if i < kept.len() {
                    assert(sorted_kept.contains(kept[i]));
                    let k = choose|k: int|
                        0 <= k < sorted_kept.len() && sorted_kept[k] == kept[i];
                    assert(second.contains(sorted_kept[k]));
                }
            }
            assert forall|i: int| 0 <= i < second.len() implies first.contains(
                #[trigger] second[i],
            ) by {
                if second[i] != item {
                    assert(sorted_kept.contains(second[i]));
                    let k = choose|k: int|
                        0 <= k < sorted_kept.len() && sorted_kept[k] == second[i];
                    assert(kept.contains(sorted_kept[k]));
                    let m = choose|m: int| 0 <= m < kept.len() && kept[m] == sorted_kept[k];
                    assert(first[m] == second[i]);
                }
            }
        }
    }
}

/// Items are kept one by one and in order, but for those at a path at which there
/// is an earlier one.
pub proof fn law_the_first_at_a_path_is_kept<T: Located>(list: Seq<T::V>, next: T::V)
    ensures
        once::<T>(Seq::empty()).len() == 0,
        once::<T>(list.push(next)) == once::<T>(list) + (if exists|i: int|
            0 <= i < list.len() && #[trigger] T::place(list[i]) == T::place(next) {
            Seq::empty()
        } else {
            seq![next]
        }),
{
    let before = once::<T>(list);
    law_once_keeps_each_path::<T>(list);
    assert(list.push(next).drop_last() =~= list);
    assert(list.push(next).last() == next);
    assert(taken::<T>(before, T::place(next)) <==> taken::<T>(list, T::place(next)));
    assert(before + Seq::<T::V>::empty() =~= before);
    assert(before.push(next) =~= before + seq![next]);
}

} // verus!
