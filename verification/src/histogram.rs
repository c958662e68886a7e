//! Counting timestamps into buckets of equal duration.
//!
//! The span from the earliest to the latest timestamp is divided among the
//! buckets, either into equal shares or into whole seconds. Either way the
//! last bucket takes the latest timestamp, so every timestamp is counted
//! once.

use crate::arith::{div_ceil, lemma_quotients_ordered, lemma_scaled_bounds, scale_floor};
use vstd::multiset::{lemma_insert_increases_count_by_1, lemma_insert_len,
    lemma_insert_other_elements_unchanged, Multiset};
use vstd::prelude::*;

verus! {

/// The smallest timestamp of a non-empty sequence.
pub open spec fn earliest(timestamps: Seq<i64>) -> int
    decreases timestamps.len(),
{
    if timestamps.len() <= 1 {
        timestamps[0] as int
    } else {
        let rest = earliest(timestamps.drop_last());
        if timestamps.last() < rest {
            timestamps.last() as int
        } else {
            rest
        }
    }
}

/// The largest timestamp of a non-empty sequence.
pub open spec fn latest(timestamps: Seq<i64>) -> int
    decreases timestamps.len(),
{
    if timestamps.len() <= 1 {
        timestamps[0] as int
    } else {
        let rest = latest(timestamps.drop_last());
        if timestamps.last() > rest {
            timestamps.last() as int
        } else {
            rest
        }
    }
}

/// The bucket, out of `count` buckets of equal duration that span `first` to
/// `last`, that holds timestamp `t`. The last bucket takes `last` itself; a
/// span without duration puts everything in bucket 0.
pub open spec fn bucket_index(t: int, first: int, last: int, count: int) -> int {
    if last <= first || t <= first {
        0
    } else {
        let index = (t - first) * count / (last - first);
        if index >= count - 1 {
            count - 1
        } else {
            index
        }
    }
}

/// The bucket of each timestamp, in the order of the timestamps, among
/// `count` buckets that span `first` to `last`.
pub open spec fn indices_over(timestamps: Seq<i64>, first: int, last: int, count: int) -> Seq<int> {
    Seq::new(timestamps.len(), |i: int| bucket_index(timestamps[i] as int, first, last, count))
}

/// The bucket of each timestamp, in the order of the timestamps, among
/// `count` buckets that span the earliest to the latest of them.
pub open spec fn bucket_indices(timestamps: Seq<i64>, count: int) -> Seq<int> {
    indices_over(timestamps, earliest(timestamps), latest(timestamps), count)
}

/// The test that a timestamp falls into bucket `bucket`.
pub open spec fn falls_into(first: int, last: int, count: int, bucket: int) -> spec_fn(
    i64,
) -> bool {
    |t: i64| bucket_index(t as int, first, last, count) == bucket
}

/// How many entries of `indices` name bucket `bucket`.
pub open spec fn tally(indices: Seq<int>, bucket: int) -> nat
    decreases indices.len(),
{
    if indices.len() == 0 {
        0
    } else if indices.last() == bucket {
        tally(indices.drop_last(), bucket) + 1
    } else {
        tally(indices.drop_last(), bucket)
    }
}

/// The occupancy of each of `count` buckets, given the bucket of every item.
pub open spec fn tallies(indices: Seq<int>, count: nat) -> Seq<nat> {
    Seq::new(count, |b: int| tally(indices, b))
}

/// The occupancy of each of `count` buckets of equal duration that span the
/// timestamps from the earliest to the latest.
pub open spec fn distribution(timestamps: Seq<i64>, count: nat) -> Seq<nat> {
    tallies(bucket_indices(timestamps, count as int), count)
}

/// The width of a bucket in whole seconds: the span from `first` to `last`
/// divided among `count` buckets, rounded up.
pub open spec fn bin_seconds(first: int, last: int, count: int) -> int {
    div_ceil(last - first, count)
}

/// The bucket that holds timestamp `t` when every bucket is `bin_seconds`
/// wide. The last bucket takes whatever lies beyond it, the latest timestamp
/// of a span that the buckets divide evenly among them; a span without
/// duration puts everything in bucket 0.
pub open spec fn bin_index(t: int, first: int, last: int, count: int) -> int {
    if last <= first || t <= first {
        0
    } else {
        let index = (t - first) / bin_seconds(first, last, count);
        if index >= count - 1 {
            count - 1
        } else {
            index
        }
    }
}

/// The whole-second bucket of each timestamp, in the order of the timestamps.
pub open spec fn bin_indices(timestamps: Seq<i64>, count: int) -> Seq<int> {
    Seq::new(
        timestamps.len(),
        |i: int| bin_index(timestamps[i] as int, earliest(timestamps), latest(timestamps), count),
    )
}

/// The occupancy of each of `count` buckets that are a whole number of
/// seconds wide.
pub open spec fn binned(timestamps: Seq<i64>, count: nat) -> Seq<nat> {
    tallies(bin_indices(timestamps, count as int), count)
}

/// The sum of a sequence of counts.
pub open spec fn total(counts: Seq<nat>) -> nat
    decreases counts.len(),
{
    if counts.len() == 0 {
        0
    } else {
        total(counts.drop_last()) + counts.last()
    }
}

/// The counts of a vector, as natural numbers.
pub open spec fn as_counts(counts: Seq<usize>) -> Seq<nat> {
    Seq::new(counts.len(), |b: int| counts[b] as nat)
}

/// The earliest timestamp is one of the timestamps and none lies before it;
/// the latest is one of them and none lies after it.
pub proof fn lemma_earliest_latest(timestamps: Seq<i64>)
    requires
        timestamps.len() > 0,
    ensures
        forall|i: int|
            0 <= i < timestamps.len() ==> earliest(timestamps) <= #[trigger] timestamps[i],
        forall|i: int| 0 <= i < timestamps.len() ==> #[trigger] timestamps[i] <= latest(timestamps),
        exists|i: int|
            0 <= i < timestamps.len() && #[trigger] timestamps[i] == earliest(timestamps),
        exists|i: int| 0 <= i < timestamps.len() && #[trigger] timestamps[i] == latest(timestamps),
    decreases timestamps.len(),
{
    if timestamps.len() > 1 {
        let rest = timestamps.drop_last();
        lemma_earliest_latest(rest);
        let i = choose|i: int| 0 <= i < rest.len() && #[trigger] rest[i] == earliest(rest);
        let j = choose|j: int| 0 <= j < rest.len() && #[trigger] rest[j] == latest(rest);
        assert(timestamps[i] == rest[i]);
        assert(timestamps[j] == rest[j]);
        let n = timestamps.len() - 1;
        assert forall|k: int| 0 <= k < timestamps.len() implies earliest(timestamps)
            <= #[trigger] timestamps[k] && timestamps[k] <= latest(timestamps) by {
            if k < n {
                assert(timestamps[k] == rest[k]);
            }
        }
    } else {
        assert(timestamps[0] == latest(timestamps));
    }
}

/// Every timestamp has a bucket among the `count` buckets.
pub proof fn lemma_bucket_index_bounds(t: int, first: int, last: int, count: int)
    requires
        1 <= count,
    ensures
        0 <= bucket_index(t, first, last, count) < count,
{
    if last > first && t > first {
        assert(0 <= (t - first) * count) by (nonlinear_arith)
            requires
                t - first > 0,
                count >= 1,
        ;
        assert(0 <= ((t - first) * count) / (last - first)) by (nonlinear_arith)
            requires
                0 <= (t - first) * count,
                last - first > 0,
        ;
    }
}

/// Over a span with duration, the earliest timestamp falls into the first
/// bucket and the latest into the last: none falls beyond it.
pub proof fn lemma_span_ends(first: int, last: int, count: int)
    requires
        1 <= count,
        first < last,
    ensures
        bucket_index(first, first, last, count) == 0,
        bucket_index(last, first, last, count) == count - 1,
{
    assert(((last - first) * count) / (last - first) == count) by (nonlinear_arith)
        requires
            last - first > 0,
    ;
}

/// A later timestamp never falls into an earlier bucket.
pub proof fn lemma_bucket_index_monotonic(t1: int, t2: int, first: int, last: int, count: int)
    requires
        1 <= count,
        t1 <= t2,
    ensures
        bucket_index(t1, first, last, count) <= bucket_index(t2, first, last, count),
{
    lemma_bucket_index_bounds(t1, first, last, count);
    lemma_bucket_index_bounds(t2, first, last, count);
    if last > first && t1 > first {
        assert((t1 - first) * count <= (t2 - first) * count) by (nonlinear_arith)
            requires
                t1 <= t2,
                count >= 1,
        ;
        lemma_quotients_ordered((t1 - first) * count, (t2 - first) * count, last - first);
    }
}

/// Every timestamp has a whole-second bucket among the `count` buckets, and
/// over a span with duration a bucket is at least one second wide.
pub proof fn lemma_bin_index_bounds(t: int, first: int, last: int, count: int)
    requires
        1 <= count,
    ensures
        0 <= bin_index(t, first, last, count) < count,
        first < last ==> 1 <= bin_seconds(first, last, count),
{
    if first < last {
        let d = last - first;
        assert(d == count * (d / count) + d % count && 0 <= d % count < count && 0 <= d / count)
            by (nonlinear_arith)
            requires
                0 < count,
                0 < d,
        ;
        let w = bin_seconds(first, last, count);
        assert(1 <= w) by (nonlinear_arith)
            requires
                0 < d,
                0 < count,
                d == count * (d / count) + d % count,
                0 <= d % count < count,
                0 <= d / count,
                w == if d % count == 0 {
                    d / count
                } else {
                    d / count + 1
                },
        ;
        if t > first {
            assert(0 <= (t - first) / w) by (nonlinear_arith)
                requires
                    0 < t - first,
                    1 <= w,
            ;
        }
    }
}

/// Over a span with duration, the earliest timestamp falls into the first
/// whole-second bucket, and where the buckets divide the span evenly among
/// them the latest falls into the last.
pub proof fn lemma_bin_span_ends(first: int, last: int, count: int)
    requires
        1 <= count,
        first < last,
    ensures
        bin_index(first, first, last, count) == 0,
        (last - first) % count == 0 ==> bin_index(last, first, last, count) == count - 1,
{
    let d = last - first;
    if d % count == 0 {
        assert(d == count * (d / count) && 1 <= d / count) by (nonlinear_arith)
            requires
                0 < count,
                0 < d,
                d % count == 0,
        ;
        assert(d / (d / count) == count) by (nonlinear_arith)
            requires
                d == count * (d / count),
                1 <= d / count,
        ;
    }
}

/// No bucket holds more items than there are.
pub proof fn lemma_tally_bound(indices: Seq<int>, bucket: int)
    ensures
        tally(indices, bucket) <= indices.len(),
    decreases indices.len(),
{
    if indices.len() > 0 {
        lemma_tally_bound(indices.drop_last(), bucket);
    }
}

/// The occupancy of the first `limit` buckets, added up.
pub open spec fn tally_below(indices: Seq<int>, limit: nat) -> nat
    decreases limit,
{
    if limit == 0 {
        0
    } else {
        tally_below(indices, (limit - 1) as nat) + tally(indices, limit - 1)
    }
}

/// One more item adds one to the buckets below `limit` exactly when its
/// bucket is among them.
proof fn lemma_tally_below_step(indices: Seq<int>, limit: nat)
    requires
        indices.len() > 0,
    ensures
        tally_below(indices, limit) == tally_below(indices.drop_last(), limit) + if 0
            <= indices.last() < limit {
            1nat
        } else {
            0nat
        },
    decreases limit,
{
    if limit > 0 {
        lemma_tally_below_step(indices, (limit - 1) as nat);
    }
}

/// Without items every bucket is empty.
proof fn lemma_tally_below_empty(indices: Seq<int>, limit: nat)
    requires
        indices.len() == 0,
    ensures
        tally_below(indices, limit) == 0,
    decreases limit,
{
    if limit > 0 {
        lemma_tally_below_empty(indices, (limit - 1) as nat);
    }
}

/// Buckets that cover every index hold every item once.
proof fn lemma_tally_below_all(indices: Seq<int>, count: nat)
    requires
        forall|i: int| 0 <= i < indices.len() ==> 0 <= #[trigger] indices[i] < count,
    ensures
        tally_below(indices, count) == indices.len(),
    decreases indices.len(),
{
    if indices.len() == 0 {
        lemma_tally_below_empty(indices, count);
    } else {
        let rest = indices.drop_last();
        assert forall|i: int| 0 <= i < rest.len() implies 0 <= #[trigger] rest[i] < count by {
            assert(rest[i] == indices[i]);
        }
        lemma_tally_below_all(rest, count);
        lemma_tally_below_step(indices, count);
    }
}

/// The sum of the first `limit` tallies is the occupancy of the buckets
/// below `limit`.
proof fn lemma_total_prefix(indices: Seq<int>, count: nat, limit: nat)
    requires
        limit <= count,
    ensures
        total(tallies(indices, count).take(limit as int)) == tally_below(indices, limit),
    decreases limit,
{
    let d = tallies(indices, count);
    if limit > 0 {
        lemma_total_prefix(indices, count, (limit - 1) as nat);
        assert(d.take(limit as int).drop_last() =~= d.take(limit - 1));
    }
}

/// The tallies of buckets that cover every index add up to the number of
/// items.
pub proof fn lemma_tallies_total(indices: Seq<int>, count: nat)
    requires
        forall|i: int| 0 <= i < indices.len() ==> 0 <= #[trigger] indices[i] < count,
    ensures
        total(tallies(indices, count)) == indices.len(),
{
    let d = tallies(indices, count);
    lemma_total_prefix(indices, count, count);
    assert(d.take(count as int) =~= d);
    lemma_tally_below_all(indices, count);
}

/// The counts of a distribution add up to the number of timestamps: every
/// timestamp is counted in exactly one bucket.
pub proof fn lemma_distribution_total(timestamps: Seq<i64>, count: nat)
    requires
        timestamps.len() > 0,
        1 <= count,
    ensures
        total(distribution(timestamps, count)) == timestamps.len(),
{
    let indices = bucket_indices(timestamps, count as int);
    assert forall|i: int| 0 <= i < indices.len() implies 0 <= #[trigger] indices[i] < count by {
        lemma_bucket_index_bounds(
            timestamps[i] as int,
            earliest(timestamps),
            latest(timestamps),
            count as int,
        );
    }
    lemma_tallies_total(indices, count);
}

/// The counts of whole-second buckets add up to the number of timestamps:
/// every timestamp is counted in exactly one bucket.
pub proof fn lemma_binned_total(timestamps: Seq<i64>, count: nat)
    requires
        timestamps.len() > 0,
        1 <= count,
    ensures
        total(binned(timestamps, count)) == timestamps.len(),
{
    let indices = bin_indices(timestamps, count as int);
    assert forall|i: int| 0 <= i < indices.len() implies 0 <= #[trigger] indices[i] < count by {
        lemma_bin_index_bounds(
            timestamps[i] as int,
            earliest(timestamps),
            latest(timestamps),
            count as int,
        );
    }
    lemma_tallies_total(indices, count);
}

/// Where all items are in bucket 0, bucket 0 holds all of them.
proof fn lemma_tally_all_zero(indices: Seq<int>, bucket: int)
    requires
        forall|i: int| 0 <= i < indices.len() ==> #[trigger] indices[i] == 0,
    ensures
        tally(indices, bucket) == if bucket == 0 {
            indices.len()
        } else {
            0
        },
    decreases indices.len(),
{
    if indices.len() > 0 {
        let rest = indices.drop_last();
        assert forall|i: int| 0 <= i < rest.len() implies #[trigger] rest[i] == 0 by {
            assert(rest[i] == indices[i]);
        }
        lemma_tally_all_zero(rest, bucket);
    }
}

/// Where all timestamps are equal, the first bucket holds all of them and
/// the others are empty.
pub proof fn lemma_distribution_single_point(timestamps: Seq<i64>, count: nat)
    requires
        timestamps.len() > 0,
        1 <= count,
        earliest(timestamps) == latest(timestamps),
    ensures
        distribution(timestamps, count)[0] == timestamps.len(),
        forall|b: int| 1 <= b < count ==> #[trigger] distribution(timestamps, count)[b] == 0,
{
    let indices = bucket_indices(timestamps, count as int);
    lemma_tally_all_zero(indices, 0);
    assert forall|b: int| 1 <= b < count implies #[trigger] distribution(timestamps, count)[b]
        == 0 by {
        lemma_tally_all_zero(indices, b);
    }
}

/// Adding one item to a collection adds it to the part that passes a test
/// exactly when the item passes.
proof fn lemma_filter_insert(all: Multiset<i64>, test: spec_fn(i64) -> bool, t: i64)
    ensures
        all.insert(t).filter(test) == if test(t) {
            all.filter(test).insert(t)
        } else {
            all.filter(test)
        },
{
    broadcast use vstd::multiset::group_multiset_axioms;

    let left = all.insert(t).filter(test);
    let right = if test(t) {
        all.filter(test).insert(t)
    } else {
        all.filter(test)
    };
    assert forall|v: i64| left.count(v) == right.count(v) by {
        if v == t {
            lemma_insert_increases_count_by_1(all, t);
            lemma_insert_increases_count_by_1(all.filter(test), t);
        } else {
            lemma_insert_other_elements_unchanged(all, t, v);
            lemma_insert_other_elements_unchanged(all.filter(test), t, v);
        }
    }
}

/// The occupancy of a bucket is the number of timestamps that fall into it,
/// whatever their order.
proof fn lemma_tally_is_order_free(
    timestamps: Seq<i64>,
    first: int,
    last: int,
    count: int,
    bucket: int,
)
    ensures
        tally(indices_over(timestamps, first, last, count), bucket)
            == timestamps.to_multiset().filter(falls_into(first, last, count, bucket)).len(),
    decreases timestamps.len(),
{
    broadcast use vstd::multiset::group_multiset_axioms;

    let indices = indices_over(timestamps, first, last, count);
    let test = falls_into(first, last, count, bucket);
    if timestamps.len() == 0 {
        timestamps.to_multiset_ensures();
        assert(timestamps.to_multiset() =~= Multiset::<i64>::empty());
        assert(Multiset::<i64>::empty().filter(test) =~= Multiset::<i64>::empty());
    } else {
        let rest = timestamps.drop_last();
        let t = timestamps.last();
        lemma_tally_is_order_free(rest, first, last, count, bucket);
        assert(timestamps =~= rest.push(t));
        rest.to_multiset_ensures();
        lemma_filter_insert(rest.to_multiset(), test, t);
        lemma_insert_len(rest.to_multiset().filter(test), t);
        assert(indices.drop_last() =~= indices_over(rest, first, last, count));
    }
}

/// Timestamps that differ only in their order have the same earliest and
/// the same latest.
proof fn lemma_span_is_order_free(a: Seq<i64>, b: Seq<i64>)
    requires
        a.len() > 0,
        a.to_multiset() == b.to_multiset(),
    ensures
        b.len() > 0,
        earliest(a) == earliest(b),
        latest(a) == latest(b),
{
    a.to_multiset_ensures();
    b.to_multiset_ensures();
    lemma_earliest_latest(a);
    lemma_earliest_latest(b);
    let i = choose|i: int| 0 <= i < a.len() && #[trigger] a[i] == earliest(a);
    let j = choose|j: int| 0 <= j < a.len() && #[trigger] a[j] == latest(a);
    let k = choose|k: int| 0 <= k < b.len() && #[trigger] b[k] == earliest(b);
    let l = choose|l: int| 0 <= l < b.len() && #[trigger] b[l] == latest(b);
    assert(a.to_multiset().count(a[i]) > 0 && a.to_multiset().count(a[j]) > 0);
    assert(b.to_multiset().count(b[k]) > 0 && b.to_multiset().count(b[l]) > 0);
}

/// The distribution does not depend on the order of the timestamps: the same
/// timestamps in another order give the same counts.
pub proof fn lemma_distribution_is_order_free(a: Seq<i64>, b: Seq<i64>, count: nat)
    requires
        a.len() > 0,
        a.to_multiset() == b.to_multiset(),
    ensures
        distribution(a, count) == distribution(b, count),
{
    lemma_span_is_order_free(a, b);
    let first = earliest(a);
    let last = latest(a);
    assert forall|bucket: int| 0 <= bucket < count implies #[trigger] distribution(a, count)[bucket]
        == distribution(b, count)[bucket] by {
        lemma_tally_is_order_free(a, first, last, count as int, bucket);
        lemma_tally_is_order_free(b, first, last, count as int, bucket);
    }
}

/// The earliest and the latest of the timestamps.
pub fn time_span(timestamps: &[i64]) -> (span: (i64, i64))
    requires
        timestamps@.len() > 0,
    ensures
        span.0 == earliest(timestamps@),
        span.1 == latest(timestamps@),
{
    let mut first: i64 = timestamps[0];
    let mut last: i64 = timestamps[0];
    let mut i: usize = 1;
    while i < timestamps.len()
        invariant
            1 <= i <= timestamps@.len(),
            first == earliest(timestamps@.take(i as int)),
            last == latest(timestamps@.take(i as int)),
        decreases timestamps@.len() - i,
    {
        proof {
            assert(timestamps@.take(i as int + 1).drop_last() =~= timestamps@.take(i as int));
        }
        let t: i64 = timestamps[i];
        if t < first {
            first = t;
        }
        if t > last {
            last = t;
        }
        i = i + 1;
    }
    assert(timestamps@.take(i as int) =~= timestamps@);
    (first, last)
}

/// The bucket of timestamp `t` among `count` buckets that span `first` to `last`.
pub fn bucket_of(t: i64, first: i64, last: i64, count: usize) -> (index: usize)
    requires
        1 <= count,
        first <= t <= last,
    ensures
        index == bucket_index(t as int, first as int, last as int, count as int),
        index < count,
{
    if last <= first || t <= first {
        return 0;
    }
    let offset: u64 = (t as i128 - first as i128) as u64;
    let duration: u64 = (last as i128 - first as i128) as u64;
    proof {
        lemma_scaled_bounds(offset as int, count as int, duration as int);
    }
    let index: usize = scale_floor(offset, count, duration);
    if index >= count - 1 {
        count - 1
    } else {
        index
    }
}

/// The whole-second bucket of timestamp `t` among `count` buckets that span
/// `first` to `last`.
pub fn bin_of(t: i64, first: i64, last: i64, count: usize) -> (index: usize)
    requires
        1 <= count,
    ensures
        index == bin_index(t as int, first as int, last as int, count as int),
        index < count,
{
    if last <= first || t <= first {
        return 0;
    }
    proof {
        lemma_bin_index_bounds(t as int, first as int, last as int, count as int);
    }
    let offset: u64 = (t as i128 - first as i128) as u64;
    let duration: u64 = (last as i128 - first as i128) as u64;
    let whole: u64 = duration / (count as u64);
    let seconds: u128 = if duration % (count as u64) == 0 {
        whole as u128
    } else {
        whole as u128 + 1
    };
    let index: u128 = (offset as u128) / seconds;
    if index >= (count - 1) as u128 {
        count - 1
    } else {
        index as usize
    }
}

/// Adds one to bucket `index` for every entry of `indices`, in turn.
fn count_into(counts: &mut Vec<usize>, index: usize, Ghost(indices): Ghost<Seq<int>>)
    requires
        index < old(counts)@.len(),
        forall|k: int|
            0 <= k < old(counts)@.len() ==> #[trigger] old(counts)@[k] == tally(indices, k),
        indices.len() < usize::MAX,
    ensures
        final(counts)@.len() == old(counts)@.len(),
        forall|k: int|
            0 <= k < final(counts)@.len() ==> #[trigger] final(counts)@[k] == tally(
                indices.push(index as int),
                k,
            ),
{
    proof {
        lemma_tally_bound(indices, index as int);
        assert(indices.push(index as int).drop_last() =~= indices);
    }
    let seen: usize = counts[index];
    counts.set(index, seen + 1);
}

/// A vector of `count` zeros.
fn zeros(count: usize) -> (counts: Vec<usize>)
    ensures
        counts@.len() == count,
        forall|k: int| 0 <= k < count ==> #[trigger] counts@[k] == 0,
{
    let mut counts: Vec<usize> = Vec::new();
    let mut b: usize = 0;
    while b < count
        invariant
            b <= count,
            counts@.len() == b,
            forall|k: int| 0 <= k < b ==> #[trigger] counts@[k] == 0,
        decreases count - b,
    {
        counts.push(0);
        b = b + 1;
    }
    counts
}

/// Counts the timestamps into `bucket_count` buckets of equal duration that
/// together span the earliest to the latest timestamp.
pub fn timestamp_frequency_distribution(timestamps: &[i64], bucket_count: usize) -> (counts: Vec<
    usize,
>)
    requires
        timestamps@.len() > 0,
        1 <= bucket_count,
    ensures
        as_counts(counts@) == distribution(timestamps@, bucket_count as nat),
        counts@.len() == bucket_count,
        total(as_counts(counts@)) == timestamps@.len(),
        earliest(timestamps@) == latest(timestamps@) ==> counts@[0] == timestamps@.len() && forall|
            b: int,
        | 1 <= b < bucket_count ==> #[trigger] counts@[b] == 0,
{
    let (first, last) = time_span(timestamps);
    let mut counts = zeros(bucket_count);
    proof {
        lemma_earliest_latest(timestamps@);
    }
    let ghost indices = bucket_indices(timestamps@, bucket_count as int);
    let mut i: usize = 0;
    while i < timestamps.len()
        invariant
            i <= timestamps@.len(),
            1 <= bucket_count,
            counts@.len() == bucket_count,
            first == earliest(timestamps@),
            last == latest(timestamps@),
            indices == bucket_indices(timestamps@, bucket_count as int),
            forall|k: int|
                0 <= k < timestamps@.len() ==> first <= #[trigger] timestamps@[k] <= last,
            forall|k: int|
                0 <= k < bucket_count ==> #[trigger] counts@[k] == tally(indices.take(i as int), k),
        decreases timestamps@.len() - i,
    {
        let index: usize = bucket_of(timestamps[i], first, last, bucket_count);
        proof {
            assert(indices.take(i as int).push(index as int) =~= indices.take(i as int + 1));
        }
        count_into(&mut counts, index, Ghost(indices.take(i as int)));
        i = i + 1;
    }
    proof {
        assert(indices.take(i as int) =~= indices);
        assert(as_counts(counts@) =~= distribution(timestamps@, bucket_count as nat));
        lemma_distribution_total(timestamps@, bucket_count as nat);
        if first == last {
            lemma_distribution_single_point(timestamps@, bucket_count as nat);
            assert forall|b: int| 1 <= b < bucket_count implies #[trigger] counts@[b] == 0 by {
                assert(as_counts(counts@)[b] == counts@[b]);
            }
        }
    }
    counts
}

/// Counts the timestamps into `length` buckets that are a whole number of
/// seconds wide: the span from the earliest to the latest timestamp, divided
/// by `length` and rounded up.
pub fn bin_timestamps(timestamps: &[i64], length: usize) -> (counts: Vec<usize>)
    requires
        timestamps@.len() > 0,
        1 <= length,
    ensures
        as_counts(counts@) == binned(timestamps@, length as nat),
        counts@.len() == length,
        total(as_counts(counts@)) == timestamps@.len(),
{
    let (first, last) = time_span(timestamps);
    let mut counts = zeros(length);
    proof {
        lemma_earliest_latest(timestamps@);
    }
    let ghost indices = bin_indices(timestamps@, length as int);
    let mut i: usize = 0;
    while i < timestamps.len()
        invariant
            i <= timestamps@.len(),
            1 <= length,
            counts@.len() == length,
            first == earliest(timestamps@),
            last == latest(timestamps@),
            indices == bin_indices(timestamps@, length as int),
            forall|k: int|
                0 <= k < timestamps@.len() ==> first <= #[trigger] timestamps@[k] <= last,
            forall|k: int|
                0 <= k < length ==> #[trigger] counts@[k] == tally(indices.take(i as int), k),
        decreases timestamps@.len() - i,
    {
        let index: usize = bin_of(timestamps[i], first, last, length);
        proof {
            assert(indices.take(i as int).push(index as int) =~= indices.take(i as int + 1));
        }
        count_into(&mut counts, index, Ghost(indices.take(i as int)));
        i = i + 1;
    }
    proof {
        assert(indices.take(i as int) =~= indices);
        assert(as_counts(counts@) =~= binned(timestamps@, length as nat));
        lemma_binned_total(timestamps@, length as nat);
    }
    counts
}

} // verus!
