//! Calendar dates and times, as the `chrono` crate reads and writes them.

use chrono::{DateTime, NaiveDateTime};
use vstd::prelude::*;

verus! {

/// What `chrono` shows for the UTC date and time that lies `seconds` after the
/// epoch: date, a space, time of day. `None` where `chrono` cannot hold that
/// moment.
pub uninterp spec fn timestamp_label(seconds: i64) -> Option<Seq<char>>;

/// The epoch seconds of the date and time that `chrono` reads from the whole of
/// `text` under the strftime format `format`, or `None` where `text` does not
/// fit the format or names no valid date and time.
pub uninterp spec fn parsed_timestamp(text: Seq<char>, format: Seq<char>) -> Option<i64>;

/// The characters of an optional string.
pub open spec fn optional_text(text: Option<String>) -> Option<Seq<char>> {
    match text {
        Some(t) => Some(t@),
        None => None,
    }
}

/// Calls `chrono::DateTime::from_timestamp` with no nanoseconds, then
/// `naive_utc` and `to_string` on what it gives. Trusted: the text returned is
/// the one that `timestamp_label` stands for, and `None` comes back exactly
/// where `from_timestamp` gives `None`.
#[verifier::external_body]
pub(crate) fn format_timestamp(seconds: i64) -> (label: Option<String>)
    ensures
        optional_text(label) == timestamp_label(seconds),
{
    match DateTime::from_timestamp(seconds, 0) {
        Some(moment) => Some(moment.naive_utc().to_string()),
        None => None,
    }
}

/// Calls `chrono::NaiveDateTime::parse_from_str`, then `and_utc` and
/// `timestamp` on what it gives. Trusted: the seconds returned are those that
/// `parsed_timestamp` stands for, and `None` comes back exactly where
/// `parse_from_str` gives an error.
#[verifier::external_body]
pub(crate) fn parse_timestamp(text: &str, format: &str) -> (seconds: Option<i64>)
    ensures
        seconds == parsed_timestamp(text@, format@),
{
    match NaiveDateTime::parse_from_str(text, format) {
        Ok(moment) => Some(moment.and_utc().timestamp()),
        Err(_) => None,
    }
}

} // verus!
