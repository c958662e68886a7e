//! Timestamps in the order of time.

use vstd::prelude::*;
use vstd::relations::total_ordering;
use vstd::seq_lib::{lemma_multiset_commutative, lemma_sorted_unique};

verus! {

/// The order of time: `a` is no later than `b`.
pub open spec fn no_later() -> spec_fn(i64, i64) -> bool {
    |a: i64, b: i64| a <= b
}

/// No timestamp is followed by an earlier one.
pub open spec fn in_order(timestamps: Seq<i64>) -> bool {
    forall|i: int, j: int| 0 <= i < j < timestamps.len() ==> timestamps[i] <= timestamps[j]
}

/// The timestamps in the order of time, earliest first.
pub open spec fn chronological(timestamps: Seq<i64>) -> Seq<i64> {
    timestamps.sort_by(no_later())
}

/// The order of time puts any two timestamps in one order.
proof fn lemma_no_later_is_total()
    ensures
        total_ordering(no_later()),
{
    let leq = no_later();
    assert forall|x: i64, y: i64| #[trigger] leq(x, y) && leq(y, x) implies x == y by {}
    assert forall|x: i64, y: i64, z: i64| #[trigger] leq(x, y) && #[trigger] leq(y, z) implies leq(
        x,
        z,
    ) by {}
    assert forall|x: i64| #[trigger] leq(x, x) by {}
    assert forall|x: i64, y: i64| #[trigger] leq(x, y) || #[trigger] leq(y, x) by {}
}

/// The chronological sequence holds the same timestamps, each as often as
/// given, and is in order.
pub proof fn lemma_chronological(timestamps: Seq<i64>)
    ensures
        in_order(chronological(timestamps)),
        chronological(timestamps).to_multiset() == timestamps.to_multiset(),
        chronological(timestamps).len() == timestamps.len(),
{
    lemma_no_later_is_total();
    timestamps.lemma_sort_by_ensures(no_later());
    let sorted = chronological(timestamps);
    assert forall|i: int, j: int| 0 <= i < j < sorted.len() implies sorted[i] <= sorted[j] by {
        assert(no_later()(sorted[i], sorted[j]));
    }
    sorted.to_multiset_ensures();
    timestamps.to_multiset_ensures();
}

/// There is one way only to put timestamps in order: a sequence in order
/// that holds the same timestamps is the chronological one.
pub proof fn lemma_in_order_is_chronological(ordered: Seq<i64>, timestamps: Seq<i64>)
    requires
        in_order(ordered),
        ordered.to_multiset() == timestamps.to_multiset(),
    ensures
        ordered == chronological(timestamps),
{
    lemma_no_later_is_total();
    lemma_chronological(timestamps);
    lemma_sorted_unique(ordered, chronological(timestamps), no_later());
}

/// The chronological sequence does not depend on the order in which the
/// timestamps are given.
pub proof fn lemma_chronological_is_order_free(a: Seq<i64>, b: Seq<i64>)
    requires
        a.to_multiset() == b.to_multiset(),
    ensures
        chronological(a) == chronological(b),
{
    lemma_chronological(a);
    lemma_in_order_is_chronological(chronological(a), b);
}

/// Timestamps that are in order already stay as they are.
pub proof fn lemma_chronological_keeps_order(timestamps: Seq<i64>)
    requires
        in_order(timestamps),
    ensures
        chronological(timestamps) == timestamps,
{
    lemma_in_order_is_chronological(timestamps, timestamps);
}

/// Merges two runs that are in order into one.
fn merge_in_order(left: &Vec<i64>, right: &Vec<i64>) -> (merged: Vec<i64>)
    requires
        in_order(left@),
        in_order(right@),
    ensures
        in_order(merged@),
        merged@.to_multiset() == left@.to_multiset().add(right@.to_multiset()),
{
    broadcast use vstd::multiset::group_multiset_axioms;

    let mut merged: Vec<i64> = Vec::new();
    let mut i: usize = 0;
    let mut j: usize = 0;
    proof {
        assert(left@.take(0) =~= Seq::<i64>::empty());
        assert(right@.take(0) =~= Seq::<i64>::empty());
        Seq::<i64>::empty().to_multiset_ensures();
    }
    while i < left.len() || j < right.len()
        invariant
            i <= left@.len(),
            j <= right@.len(),
            in_order(left@),
            in_order(right@),
            in_order(merged@),
            merged@.to_multiset() == left@.take(i as int).to_multiset().add(
                right@.take(j as int).to_multiset(),
            ),
            forall|k: int|
                0 <= k < merged@.len() && i < left@.len() ==> #[trigger] merged@[k]
                    <= left@[i as int],
            forall|k: int|
                0 <= k < merged@.len() && j < right@.len() ==> #[trigger] merged@[k]
                    <= right@[j as int],
        decreases left@.len() - i + right@.len() - j,
    {
        let ghost before = merged@;
        if j >= right.len() || (i < left.len() && left[i] <= right[j]) {
            let t: i64 = left[i];
            proof {
                assert(left@.take(i as int + 1) =~= left@.take(i as int).push(t));
                left@.take(i as int).to_multiset_ensures();
                before.to_multiset_ensures();
                assert(before.push(t).to_multiset() =~= left@.take(i as int + 1).to_multiset().add(
                    right@.take(j as int).to_multiset(),
                ));
            }
            merged.push(t);
            i = i + 1;
        } else {
            let t: i64 = right[j];
            proof {
                assert(right@.take(j as int + 1) =~= right@.take(j as int).push(t));
                right@.take(j as int).to_multiset_ensures();
                before.to_multiset_ensures();
                assert(before.push(t).to_multiset() =~= left@.take(i as int).to_multiset().add(
                    right@.take(j as int + 1).to_multiset(),
                ));
            }
            merged.push(t);
            j = j + 1;
        }
    }
    proof {
        assert(left@.take(i as int) =~= left@);
        assert(right@.take(j as int) =~= right@);
    }
    merged
}

/// The timestamps from position `from` up to `to`, in the order of time.
fn sort_range(timestamps: &[i64], from: usize, to: usize) -> (sorted: Vec<i64>)
    requires
        from <= to <= timestamps@.len(),
    ensures
        in_order(sorted@),
        sorted@.to_multiset() == timestamps@.subrange(from as int, to as int).to_multiset(),
    decreases to - from,
{
    let mut sorted: Vec<i64> = Vec::new();
    if to - from <= 1 {
        if from < to {
            sorted.push(timestamps[from]);
            assert(sorted@ =~= timestamps@.subrange(from as int, to as int));
        } else {
            assert(sorted@ =~= timestamps@.subrange(from as int, to as int));
        }
        return sorted;
    }
    let middle: usize = from + (to - from) / 2;
    let left = sort_range(timestamps, from, middle);
    let right = sort_range(timestamps, middle, to);
    proof {
        let first = timestamps@.subrange(from as int, middle as int);
        let second = timestamps@.subrange(middle as int, to as int);
        assert(timestamps@.subrange(from as int, to as int) =~= first + second);
        lemma_multiset_commutative(first, second);
    }
    merge_in_order(&left, &right)
}

/// A copy of the timestamps in the order of time, earliest first.
pub fn sort_timestamps(timestamps: &[i64]) -> (sorted: Vec<i64>)
    ensures
        sorted@ == chronological(timestamps@),
        in_order(sorted@),
        sorted@.to_multiset() == timestamps@.to_multiset(),
        sorted@.len() == timestamps@.len(),
{
    let sorted = sort_range(timestamps, 0, timestamps.len());
    proof {
        assert(timestamps@.subrange(0, timestamps@.len() as int) =~= timestamps@);
        lemma_in_order_is_chronological(sorted@, timestamps@);
        lemma_chronological(timestamps@);
    }
    sorted
}

} // verus!
