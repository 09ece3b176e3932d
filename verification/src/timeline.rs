//! When a conversation started and ended.
//!
//! A timestamp counts milliseconds since the Unix epoch; it may be unknown.
use vstd::prelude::*;

verus! {

/// The earlier of two timestamps; an unknown one does not count.
pub open spec fn earlier(a: Option<i64>, b: Option<i64>) -> Option<i64> {
    match (a, b) {
        (Some(x), Some(y)) => if x <= y {
            Some(x)
        } else {
            Some(y)
        },
        (None, _) => b,
        (_, None) => a,
    }
}

/// The later of two timestamps; an unknown one does not count.
pub open spec fn later(a: Option<i64>, b: Option<i64>) -> Option<i64> {
    match (a, b) {
        (Some(x), Some(y)) => if x >= y {
            Some(x)
        } else {
            Some(y)
        },
        (None, _) => b,
        (_, None) => a,
    }
}

/// The earliest of some timestamps.
pub open spec fn earliest(stamps: Seq<Option<i64>>) -> Option<i64>
    decreases stamps.len(),
{
    if stamps.len() == 0 {
        None
    } else {
        earlier(earliest(stamps.drop_last()), stamps.last())
    }
}

/// The latest of some timestamps.
pub open spec fn latest(stamps: Seq<Option<i64>>) -> Option<i64>
    decreases stamps.len(),
{
    if stamps.len() == 0 {
        None
    } else {
        later(latest(stamps.drop_last()), stamps.last())
    }
}

/// The first of two timestamps that is known.
pub open spec fn known(a: Option<i64>, b: Option<i64>) -> Option<i64> {
    if a is Some {
        a
    } else {
        b
    }
}

/// The earlier of two timestamps; an unknown one does not count.
pub fn min_timestamp(current: Option<i64>, candidate: Option<i64>) -> (least: Option<i64>)
    ensures
        least == earlier(current, candidate),
{
    match (current, candidate) {
        (Some(x), Some(y)) => Some(
            if x <= y {
                x
            } else {
                y
            },
        ),
        (None, other) => other,
        (other, None) => other,
    }
}

/// The later of two timestamps; an unknown one does not count.
pub fn max_timestamp(current: Option<i64>, candidate: Option<i64>) -> (most: Option<i64>)
    ensures
        most == later(current, candidate),
{
    match (current, candidate) {
        (Some(x), Some(y)) => Some(
            if x >= y {
                x
            } else {
                y
            },
        ),
        (None, other) => other,
        (other, None) => other,
    }
}

/// The first of two timestamps that is known.
pub fn known_timestamp(first: Option<i64>, second: Option<i64>) -> (stamp: Option<i64>)
    ensures
        stamp == known(first, second),
{
    if first.is_some() {
        first
    } else {
        second
    }
}

/// The order in which timestamps are taken together does not matter.
pub proof fn law_bounds_ignore_order(a: Option<i64>, b: Option<i64>, c: Option<i64>)
    ensures
        earlier(a, b) == earlier(b, a),
        later(a, b) == later(b, a),
        earlier(earlier(a, b), c) == earlier(a, earlier(b, c)),
        later(later(a, b), c) == later(a, later(b, c)),
        earlier(a, a) == a,
        later(a, a) == a,
        earlier(a, None) == a,
        later(a, None) == a,
{
}

/// The earliest and the latest of some timestamps are among them, no other is
/// outside them, and they are unknown only where all are.
pub proof fn law_bounds_enclose(stamps: Seq<Option<i64>>)
    ensures
        earliest(stamps) is Some <==> exists|i: int|
            0 <= i < stamps.len() && (#[trigger] stamps[i]) is Some,
        latest(stamps) is Some <==> earliest(stamps) is Some,
        earliest(stamps) is Some ==> stamps.contains(earliest(stamps)) && stamps.contains(
            latest(stamps),
        ),
        forall|i: int|
            0 <= i < stamps.len() && (#[trigger] stamps[i]) is Some ==> earliest(stamps)->Some_0
                <= stamps[i]->Some_0 <= latest(stamps)->Some_0,
        earliest(stamps) is Some ==> earliest(stamps)->Some_0 <= latest(stamps)->Some_0,
    decreases stamps.len(),
{
    if stamps.len() > 0 {
        let before = stamps.drop_last();
        law_bounds_enclose(before);
        let last = stamps.last();
        assert(stamps[stamps.len() - 1] == last);
        assert forall|x: Option<i64>| before.contains(x) implies stamps.contains(x) by {
            let i = choose|i: int| 0 <= i < before.len() && before[i] == x;
            assert(stamps[i] == x);
        }
        assert forall|i: int|
            0 <= i < stamps.len() && (#[trigger] stamps[i]) is Some implies earliest(stamps)->Some_0
            <= stamps[i]->Some_0 <= latest(stamps)->Some_0 by {
            if i < before.len() {
                assert(before[i] == stamps[i]);
            }
        }
        if earliest(before) is Some {
            let i = choose|i: int| 0 <= i < before.len() && (#[trigger] before[i]) is Some;
            assert(stamps[i] is Some);
        }
        if exists|i: int| 0 <= i < stamps.len() && (#[trigger] stamps[i]) is Some {
            let i = choose|i: int| 0 <= i < stamps.len() && (#[trigger] stamps[i]) is Some;
            if i < before.len() {
                assert(before[i] is Some);
            }
        }
    }
}

/// One more timestamp.
pub proof fn lemma_bounds_push(stamps: Seq<Option<i64>>, stamp: Option<i64>)
    ensures
        earliest(stamps.push(stamp)) == earlier(earliest(stamps), stamp),
        latest(stamps.push(stamp)) == later(latest(stamps), stamp),
{
    assert(stamps.push(stamp).drop_last() =~= stamps);
}

/// A known timestamp is taken before another, and an unknown one never where the
/// other is known.
pub proof fn law_known_timestamps_come_first(at: i64, other: Option<i64>)
    ensures
        known(Some(at), other) == Some(at),
        known(None, other) == other,
        earlier(Some(at), other) matches Some(least) && least <= at,
        later(Some(at), other) matches Some(most) && most >= at,
{
}

} // verus!
