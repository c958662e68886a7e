//! Scanning a large file in parts: how many parts, and how their timestamps
//! come together again.

use crate::error::Error;
use crate::timestamp_finder::{lemma_timestamps_in_parts, timestamps_in};
use vstd::prelude::*;

verus! {

/// Files below this size, in bytes, are scanned in one part.
pub const SMALL_FILE_BYTES: u64 = 10 * 1024 * 1024;

/// The timestamps of the parts whose scan succeeded, part after part.
pub open spec fn merged(parts: Seq<Result<Vec<i64>, Error>>) -> Seq<i64>
    decreases parts.len(),
{
    if parts.len() == 0 {
        Seq::empty()
    } else {
        match parts.last() {
            Ok(timestamps) => merged(parts.drop_last()) + timestamps@,
            Err(_) => merged(parts.drop_last()),
        }
    }
}

/// The lines of all parts, part after part.
pub open spec fn joined(groups: Seq<Seq<String>>) -> Seq<String>
    decreases groups.len(),
{
    if groups.len() == 0 {
        Seq::empty()
    } else {
        joined(groups.drop_last()) + groups.last()
    }
}

/// Scanning a log in parts and merging what was found gives what a scan of
/// the whole log gives, as long as every part was scanned.
pub proof fn lemma_parts_scan_as_the_whole(
    format: Seq<char>,
    groups: Seq<Seq<String>>,
    parts: Seq<Result<Vec<i64>, Error>>,
)
    requires
        parts.len() == groups.len(),
        forall|i: int|
            0 <= i < parts.len() ==> (#[trigger] parts[i]) is Ok && parts[i]->Ok_0@
                == timestamps_in(format, groups[i]),
    ensures
        merged(parts) == timestamps_in(format, joined(groups)),
    decreases groups.len(),
{
    if groups.len() > 0 {
        let fewer = parts.drop_last();
        assert forall|i: int| 0 <= i < fewer.len() implies (#[trigger] fewer[i]) is Ok
            && fewer[i]->Ok_0@ == timestamps_in(format, groups.drop_last()[i]) by {
            assert(fewer[i] == parts[i]);
        }
        lemma_parts_scan_as_the_whole(format, groups.drop_last(), fewer);
        lemma_timestamps_in_parts(format, joined(groups.drop_last()), groups.last());
    }
}

/// The number of parts to scan a file of `file_bytes` bytes in: one for a
/// small file, `concurrency` otherwise.
pub fn chunk_count(file_bytes: u64, concurrency: usize) -> (count: usize)
    ensures
        count == if file_bytes < SMALL_FILE_BYTES {
            1
        } else {
            concurrency
        },
{
    if file_bytes < SMALL_FILE_BYTES {
        1
    } else {
        concurrency
    }
}

/// The timestamps of all parts in the order of the parts. A part whose scan
/// failed adds nothing.
pub fn merge_chunks(parts: &[Result<Vec<i64>, Error>]) -> (timestamps: Vec<i64>)
    ensures
        timestamps@ == merged(parts@),
{
    let mut timestamps: Vec<i64> = Vec::new();
    let mut i: usize = 0;
    while i < parts.len()
        invariant
            i <= parts@.len(),
            timestamps@ == merged(parts@.take(i as int)),
        decreases parts@.len() - i,
    {
        proof {
            assert(parts@.take(i as int + 1).drop_last() =~= parts@.take(i as int));
        }
        match &parts[i] {
            Ok(part) => {
                let mut k: usize = 0;
                while k < part.len()
                    invariant
                        k <= part@.len(),
                        i < parts@.len(),
                        parts@[i as int] == Ok::<Vec<i64>, Error>(*part),
                        timestamps@ == merged(parts@.take(i as int)) + part@.take(k as int),
                    decreases part@.len() - k,
                {
                    timestamps.push(part[k]);
                    k = k + 1;
                }
            },
            Err(_) => {},
        }
        i = i + 1;
    }
    assert(parts@.take(i as int) =~= parts@);
    timestamps
}

/// The timestamps, unless there is none: a run without timestamps has nothing
/// to draw.
pub fn require_timestamps(timestamps: Vec<i64>) -> (kept: Result<Vec<i64>, Error>)
    ensures
        timestamps@.len() == 0 <==> kept is Err,
        kept matches Ok(same) ==> same@ == timestamps@,
        kept matches Err(e) ==> e == Error::NoMatchingTimestamps,
{
    if timestamps.len() == 0 {
        Err(Error::NoMatchingTimestamps)
    } else {
        Ok(timestamps)
    }
}

} // verus!
