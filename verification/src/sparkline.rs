//! Bucket counts as a line of block characters.

use crate::arith::lemma_quotients_ordered;
use crate::error::Error;
use crate::histogram::{as_counts, bin_timestamps, binned, distribution,
    timestamp_frequency_distribution};
use vstd::prelude::*;
use vstd::string::*;

verus! {

/// The number of heights that a block character can show.
pub const LEVELS: usize = 8;

/// The height, from 0 to 7, that shows `count` on a scale that runs from
/// `min` to `max`: the share of the scale that `count` has covered, in
/// eighths, rounded down. The top of the scale takes the highest level, and a
/// scale without extent shows everything at the lowest.
pub open spec fn glyph_level(min: int, max: int, count: int) -> int {
    if max <= min || count <= min {
        0
    } else {
        let level = (count - min) * 8 / (max - min);
        if level >= 7 {
            7
        } else {
            level
        }
    }
}

/// The block character of a level.
pub open spec fn glyph(level: int) -> char {
    if level <= 0 {
        '▁'
    } else if level == 1 {
        '▂'
    } else if level == 2 {
        '▃'
    } else if level == 3 {
        '▄'
    } else if level == 4 {
        '▅'
    } else if level == 5 {
        '▆'
    } else if level == 6 {
        '▇'
    } else {
        '█'
    }
}

/// The smallest of the counts; 0 where there is none.
pub open spec fn lowest(counts: Seq<nat>) -> nat
    decreases counts.len(),
{
    if counts.len() == 0 {
        0
    } else if counts.len() == 1 {
        counts[0]
    } else {
        let rest = lowest(counts.drop_last());
        if counts.last() < rest {
            counts.last()
        } else {
            rest
        }
    }
}

/// The largest of the counts; 0 where there is none.
pub open spec fn highest(counts: Seq<nat>) -> nat
    decreases counts.len(),
{
    if counts.len() == 0 {
        0
    } else if counts.len() == 1 {
        counts[0]
    } else {
        let rest = highest(counts.drop_last());
        if counts.last() > rest {
            counts.last()
        } else {
            rest
        }
    }
}

/// One block character for each count, on the scale that runs from the
/// lowest of the counts to the highest.
pub open spec fn sparkline_text(counts: Seq<nat>) -> Seq<char> {
    Seq::new(
        counts.len(),
        |i: int|
            glyph(glyph_level(lowest(counts) as int, highest(counts) as int, counts[i] as int)),
    )
}

/// The lowest count is one of the counts and none is smaller; the highest
/// is one of them and none is larger.
pub proof fn lemma_lowest_highest(counts: Seq<nat>)
    requires
        counts.len() > 0,
    ensures
        forall|i: int| 0 <= i < counts.len() ==> lowest(counts) <= #[trigger] counts[i],
        forall|i: int| 0 <= i < counts.len() ==> #[trigger] counts[i] <= highest(counts),
        exists|i: int| 0 <= i < counts.len() && #[trigger] counts[i] == lowest(counts),
        exists|i: int| 0 <= i < counts.len() && #[trigger] counts[i] == highest(counts),
        lowest(counts) <= highest(counts),
    decreases counts.len(),
{
    if counts.len() > 1 {
        let rest = counts.drop_last();
        lemma_lowest_highest(rest);
        let i = choose|i: int| 0 <= i < rest.len() && #[trigger] rest[i] == lowest(rest);
        let j = choose|j: int| 0 <= j < rest.len() && #[trigger] rest[j] == highest(rest);
        assert(counts[i] == rest[i]);
        assert(counts[j] == rest[j]);
        let n = counts.len() - 1;
        assert(counts[n] == counts.last());
        assert forall|k: int| 0 <= k < counts.len() implies lowest(counts) <= #[trigger] counts[k]
            && counts[k] <= highest(counts) by {
            if k < n {
                assert(counts[k] == rest[k]);
            }
        }
    } else {
        assert(counts[0] == lowest(counts));
        assert(counts[0] == highest(counts));
    }
}

/// Every count of a sparkline lies on its scale, so the lowest count is
/// shown at the lowest level, and the highest at the highest where the
/// counts differ.
pub proof fn lemma_sparkline_scale_ends(counts: Seq<nat>, i: int)
    requires
        0 <= i < counts.len(),
    ensures
        counts[i] == lowest(counts) ==> sparkline_text(counts)[i] == glyph(0),
        counts[i] == highest(counts) && lowest(counts) < highest(counts) ==> sparkline_text(
            counts,
        )[i] == glyph(7),
{
    lemma_lowest_highest(counts);
    let min = lowest(counts) as int;
    let max = highest(counts) as int;
    if counts[i] == highest(counts) && min < max {
        assert(((max - min) * 8) / (max - min) == 8) by (nonlinear_arith)
            requires
                max - min > 0,
        ;
    }
}

/// A level is one of the eight that have a block character.
pub proof fn lemma_glyph_level_bounds(min: int, max: int, count: int)
    ensures
        0 <= glyph_level(min, max, count) <= 7,
{
    if max > min && count > min {
        assert(0 <= ((count - min) * 8) / (max - min)) by (nonlinear_arith)
            requires
                count - min > 0,
                max - min > 0,
        ;
    }
}

/// On one scale a larger count never gets a lower level.
pub proof fn lemma_glyph_level_monotonic(min: int, max: int, count_a: int, count_b: int)
    requires
        count_a <= count_b,
    ensures
        glyph_level(min, max, count_a) <= glyph_level(min, max, count_b),
{
    lemma_glyph_level_bounds(min, max, count_a);
    lemma_glyph_level_bounds(min, max, count_b);
    if max > min && count_a > min {
        lemma_quotients_ordered((count_a - min) * 8, (count_b - min) * 8, max - min);
    }
}

/// The level of `num` on the scale from `min` to `max`.
pub fn glyph_index(min: usize, max: usize, num: usize) -> (level: usize)
    ensures
        level == glyph_level(min as int, max as int, num as int),
        level < LEVELS,
{
    proof {
        lemma_glyph_level_bounds(min as int, max as int, num as int);
    }
    if max <= min || num <= min {
        return 0;
    }
    let share: u128 = ((num - min) as u128) * 8;
    let level: u128 = share / ((max - min) as u128);
    if level >= 7 {
        7
    } else {
        level as usize
    }
}

/// The block character that shows `num` on the scale from `min` to `max`.
pub fn sparkline(min: usize, max: usize, num: usize) -> (block: &'static str)
    ensures
        block@ == seq![glyph(glyph_level(min as int, max as int, num as int))],
{
    let level: usize = glyph_index(min, max, num);
    proof {
        reveal_strlit("▁");
        reveal_strlit("▂");
        reveal_strlit("▃");
        reveal_strlit("▄");
        reveal_strlit("▅");
        reveal_strlit("▆");
        reveal_strlit("▇");
        reveal_strlit("█");
    }
    let block: &'static str = if level == 0 {
        "▁"
    } else if level == 1 {
        "▂"
    } else if level == 2 {
        "▃"
    } else if level == 3 {
        "▄"
    } else if level == 4 {
        "▅"
    } else if level == 5 {
        "▆"
    } else if level == 6 {
        "▇"
    } else {
        "█"
    };
    block
}

/// The lowest and the highest of the counts.
pub fn count_range(counts: &[usize]) -> (range: (usize, usize))
    ensures
        range.0 == lowest(as_counts(counts@)),
        range.1 == highest(as_counts(counts@)),
{
    if counts.len() == 0 {
        return (0, 0);
    }
    let ghost all = as_counts(counts@);
    let mut min: usize = counts[0];
    let mut max: usize = counts[0];
    let mut i: usize = 1;
    while i < counts.len()
        invariant
            1 <= i <= counts@.len(),
            all == as_counts(counts@),
            min == lowest(all.take(i as int)),
            max == highest(all.take(i as int)),
        decreases counts@.len() - i,
    {
        proof {
            assert(all.take(i as int + 1).drop_last() =~= all.take(i as int));
        }
        let count: usize = counts[i];
        if count < min {
            min = count;
        }
        if count > max {
            max = count;
        }
        i = i + 1;
    }
    assert(all.take(i as int) =~= all);
    (min, max)
}

/// The sparkline of the counts: one block character for each, left to right.
pub fn render_sparkline(counts: &[usize]) -> (line: String)
    ensures
        line@ == sparkline_text(as_counts(counts@)),
        line@.len() == counts@.len(),
{
    let (min, max) = count_range(counts);
    let mut line = String::new();
    let mut i: usize = 0;
    while i < counts.len()
        invariant
            i <= counts@.len(),
            min == lowest(as_counts(counts@)),
            max == highest(as_counts(counts@)),
            line@ == sparkline_text(as_counts(counts@)).take(i as int),
        decreases counts@.len() - i,
    {
        line.append(sparkline(min, max, counts[i]));
        i = i + 1;
    }
    line
}

/// The sparkline of the timestamps on a line of `length` characters: each
/// character shows how many timestamps fall into its share of the time
/// from the earliest to the latest. Without timestamps there is nothing to
/// show.
pub fn build_sparkline(timestamps: &[i64], length: usize) -> (line: Result<String, Error>)
    requires
        1 <= length,
    ensures
        timestamps@.len() == 0 <==> line is Err,
        line is Err ==> line == Err::<String, Error>(Error::NoMatchingTimestamps),
        line matches Ok(text) ==> text@ == sparkline_text(distribution(timestamps@, length as nat))
            && text@.len() == length,
{
    if timestamps.len() == 0 {
        return Err(Error::NoMatchingTimestamps);
    }
    let counts = timestamp_frequency_distribution(timestamps, length);
    Ok(render_sparkline(counts.as_slice()))
}

/// The sparkline of the timestamps on a line of `length` characters, each
/// of which stands for the same whole number of seconds. Without timestamps
/// there is nothing to show.
pub fn build_binned_sparkline(timestamps: &[i64], length: usize) -> (line: Result<String, Error>)
    requires
        1 <= length,
    ensures
        timestamps@.len() == 0 <==> line is Err,
        line is Err ==> line == Err::<String, Error>(Error::NoMatchingTimestamps),
        line matches Ok(text) ==> text@ == sparkline_text(binned(timestamps@, length as nat))
            && text@.len() == length,
{
    if timestamps.len() == 0 {
        return Err(Error::NoMatchingTimestamps);
    }
    let counts = bin_timestamps(timestamps, length);
    Ok(render_sparkline(counts.as_slice()))
}

} // verus!
