//! Finding the timestamp of a log line: a strftime format becomes a regular
//! expression that locates it, and the format itself then reads it.

use crate::datetime::{optional_text, parse_timestamp, parsed_timestamp};
use crate::error::Error;
use regex::Regex;
use vstd::prelude::*;
use vstd::string::*;

verus! {

/// The message with which the `regex` crate rejects `pattern`, with its
/// default limits; `None` where it compiles `pattern`.
pub uninterp spec fn pattern_rejection(pattern: Seq<char>) -> Option<Seq<char>>;

/// Whether the `regex` crate compiles `pattern`.
pub open spec fn pattern_compiles(pattern: Seq<char>) -> bool {
    pattern_rejection(pattern) is None
}

/// The text of the leftmost match that the `regex` crate finds for `pattern`
/// in `line`; `None` where it finds none or does not compile `pattern`.
pub uninterp spec fn first_match(pattern: Seq<char>, line: Seq<char>) -> Option<Seq<char>>;

/// Whether `text` stands in `line`, as one piece.
pub open spec fn occurs_in(text: Seq<char>, line: Seq<char>) -> bool {
    exists|start: int, end: int|
        0 <= start <= end <= line.len() && #[trigger] line.subrange(start, end) == text
}

/// Calls `regex::Regex::new` and, where it gave an error, `to_string` on the
/// error. Trusted: the message is the one that `pattern_rejection` stands
/// for, and `None` comes back exactly where `new` gave a regex.
#[verifier::external_body]
pub(crate) fn regex_rejection(pattern: &str) -> (reason: Option<String>)
    ensures
        optional_text(reason) == pattern_rejection(pattern@),
{
    match Regex::new(pattern) {
        Ok(_) => None,
        Err(reason) => Some(reason.to_string()),
    }
}

/// Calls `regex::Regex::new`, then `Regex::find` on `line`, and copies the
/// matched text out with `Match::as_str`. Trusted: the text is the one that
/// `first_match` stands for, it is a piece of `line`, and `None` comes back
/// where `find` gives no match or `new` an error.
#[verifier::external_body]
pub(crate) fn regex_find(pattern: &str, line: &str) -> (found: Option<String>)
    ensures
        optional_text(found) == first_match(pattern@, line@),
        found matches Some(text) ==> occurs_in(text@, line@),
{
    match Regex::new(pattern) {
        Ok(regex) => match regex.find(line) {
            Some(found) => Some(found.as_str().to_string()),
            None => None,
        },
        Err(_) => None,
    }
}

/// The pattern that stands for the directive `%` followed by `letter`, for
/// the letters that are directives: numbers by their count of digits, month
/// names by their count of letters.
pub open spec fn letter_pattern(letter: char) -> Option<Seq<char>> {
    if letter == 'Y' {
        Some("\\d{1,4}"@)
    } else if letter == 'C' || letter == 'y' || letter == 'm' || letter == 'd' || letter == 'H'
        || letter == 'M' || letter == 'S' {
        Some("\\d{1,2}"@)
    } else if letter == 'b' || letter == 'h' {
        Some("[A-Za-z]{3}"@)
    } else if letter == 'B' {
        Some("[A-Za-z]{3,9}"@)
    } else {
        None
    }
}

/// The pattern that stands for the directive `%.f`, a fraction of a second.
pub open spec fn fraction_pattern() -> Seq<char> {
    "\\d{1,}"@
}

/// Whether the directive `%.f` starts at position `i` of `format`.
pub open spec fn fraction_at(format: Seq<char>, i: int) -> bool {
    &&& 0 <= i
    &&& i + 2 < format.len()
    &&& format[i] == '%'
    &&& format[i + 1] == '.'
    &&& format[i + 2] == 'f'
}

/// Whether a directive of one letter starts at position `i` of `format`.
pub open spec fn letter_at(format: Seq<char>, i: int) -> bool {
    &&& 0 <= i
    &&& i + 1 < format.len()
    &&& format[i] == '%'
    &&& letter_pattern(format[i + 1]) is Some
}

/// The pattern for `format` from position `i` on: every directive, wherever
/// it stands, gives its pattern, and every other character stands for itself.
pub open spec fn pattern_from(format: Seq<char>, i: int) -> Seq<char>
    decreases format.len() - i,
{
    if i < 0 || i >= format.len() {
        Seq::empty()
    } else if letter_at(format, i) {
        letter_pattern(format[i + 1])->0 + pattern_from(format, i + 2)
    } else if fraction_at(format, i) {
        fraction_pattern() + pattern_from(format, i + 3)
    } else {
        seq![format[i]] + pattern_from(format, i + 1)
    }
}

/// The pattern that finds a timestamp written in `format`.
pub open spec fn format_pattern(format: Seq<char>) -> Seq<char> {
    pattern_from(format, 0)
}

/// The timestamp of `line` under `format`: the first match of the format's
/// pattern, read by the format itself. A line without a match has none, and
/// neither has one whose match is no valid date and time.
pub open spec fn timestamp_in(format: Seq<char>, line: Seq<char>) -> Option<i64> {
    match first_match(format_pattern(format), line) {
        Some(text) => parsed_timestamp(text, format),
        None => None,
    }
}

/// The values that are there, in their order.
pub open spec fn present(found: Seq<Option<i64>>) -> Seq<i64>
    decreases found.len(),
{
    if found.len() == 0 {
        Seq::empty()
    } else {
        match found.last() {
            Some(t) => present(found.drop_last()).push(t),
            None => present(found.drop_last()),
        }
    }
}

/// The timestamp of each line under `format`, for the lines that have one.
pub open spec fn timestamps_in(format: Seq<char>, lines: Seq<String>) -> Seq<i64> {
    present(Seq::new(lines.len(), |i: int| timestamp_in(format, lines[i]@)))
}

/// Scanning two runs of lines one after the other finds the timestamps of
/// the first run followed by those of the second: a log can be scanned in
/// parts.
pub proof fn lemma_timestamps_in_parts(format: Seq<char>, head: Seq<String>, tail: Seq<String>)
    ensures
        timestamps_in(format, head + tail) == timestamps_in(format, head) + timestamps_in(
            format,
            tail,
        ),
    decreases tail.len(),
{
    let all = Seq::new((head + tail).len(), |i: int| timestamp_in(format, (head + tail)[i]@));
    let second = Seq::new(tail.len(), |i: int| timestamp_in(format, tail[i]@));
    if tail.len() > 0 {
        let shorter = tail.drop_last();
        lemma_timestamps_in_parts(format, head, shorter);
        let fewer = Seq::new(
            (head + shorter).len(),
            |i: int| timestamp_in(format, (head + shorter)[i]@),
        );
        assert(all.drop_last() =~= fewer);
        assert(second.drop_last() =~= Seq::new(
            shorter.len(),
            |i: int| timestamp_in(format, shorter[i]@),
        ));
    }
}

/// The pattern of the one-letter directive `letter`, if it is one.
fn pattern_of_letter(letter: char) -> (pattern: Option<&'static str>)
    ensures
        match pattern {
            Some(p) => letter_pattern(letter) == Some(p@),
            None => letter_pattern(letter) is None,
        },
{
    if letter == 'Y' {
        Some("\\d{1,4}")
    } else if letter == 'C' || letter == 'y' || letter == 'm' || letter == 'd' || letter == 'H'
        || letter == 'M' || letter == 'S' {
        Some("\\d{1,2}")
    } else if letter == 'b' || letter == 'h' {
        Some("[A-Za-z]{3}")
    } else if letter == 'B' {
        Some("[A-Za-z]{3,9}")
    } else {
        None
    }
}

/// Finds timestamps written in one strftime format.
pub struct TimestampFinder {
    datetime_format: String,
    pattern: String,
}

impl TimestampFinder {
    #[verifier::type_invariant]
    spec fn well_formed(&self) -> bool {
        &&& self.pattern@ == format_pattern(self.datetime_format@)
        &&& pattern_compiles(self.pattern@)
    }

    /// The format that the finder reads timestamps in.
    pub closed spec fn format(&self) -> Seq<char> {
        self.datetime_format@
    }

    /// The pattern that the finder locates timestamps with.
    pub closed spec fn pattern(&self) -> Seq<char> {
        self.pattern@
    }

    /// A finder for `datetime_format`, unless the regex engine rejects the
    /// pattern that the format compiles to; the error then carries the
    /// engine's reason.
    pub fn new(datetime_format: &str) -> (finder: Result<TimestampFinder, Error>)
        ensures
            finder is Ok <==> pattern_compiles(format_pattern(datetime_format@)),
            finder matches Ok(f) ==> f.format() == datetime_format@ && f.pattern()
                == format_pattern(datetime_format@),
            finder matches Err(e) ==> e.reason() == pattern_rejection(
                format_pattern(datetime_format@),
            ),
    {
        let pattern = Self::strftime_to_regex(datetime_format);
        match regex_rejection(pattern.as_str()) {
            None => Ok(TimestampFinder { datetime_format: datetime_format.to_owned(), pattern }),
            Some(reason) => Err(Error::InvalidFormat(reason)),
        }
    }

    /// The timestamp of the line `s`, in epoch seconds, if it has one.
    pub fn find_timestamp(&self, s: &str) -> (found: Option<i64>)
        ensures
            found == timestamp_in(self.format(), s@),
            found is Some ==> occurs_in(first_match(format_pattern(self.format()), s@)->0, s@),
    {
        proof {
            use_type_invariant(self);
        }
        match regex_find(self.pattern.as_str(), s) {
            Some(text) => parse_timestamp(text.as_str(), self.datetime_format.as_str()),
            None => None,
        }
    }

    /// The regular expression that finds a timestamp written in `time_format`.
    pub fn strftime_to_regex(time_format: &str) -> (pattern: String)
        ensures
            pattern@ == format_pattern(time_format@),
    {
        let length: usize = time_format.unicode_len();
        let mut pattern = String::new();
        let mut i: usize = 0;
        while i < length
            invariant
                i <= length,
                length == time_format@.len(),
                pattern@ + pattern_from(time_format@, i as int) == format_pattern(time_format@),
            decreases length - i,
        {
            let c: char = time_format.get_char(i);
            let mut step: usize = 1;
            if c == '%' && i + 1 < length {
                let next: char = time_format.get_char(i + 1);
                match pattern_of_letter(next) {
                    Some(p) => {
                        pattern.append(p);
                        step = 2;
                    },
                    None => {
                        if next == '.' && i + 2 < length && time_format.get_char(i + 2) == 'f' {
                            pattern.append("\\d{1,}");
                            step = 3;
                        }
                    },
                }
            }
            if step == 1 {
                pattern.append(time_format.substring_char(i, i + 1));
            }
            assert(pattern@ + pattern_from(time_format@, (i + step) as int) =~= format_pattern(
                time_format@,
            ));
            i = i + step;
        }
        pattern
    }
}

/// The values that are there, in their order.
pub fn keep_found(found: &[Option<i64>]) -> (kept: Vec<i64>)
    ensures
        kept@ == present(found@),
{
    let mut kept: Vec<i64> = Vec::new();
    let mut i: usize = 0;
    while i < found.len()
        invariant
            i <= found@.len(),
            kept@ == present(found@.take(i as int)),
        decreases found@.len() - i,
    {
        proof {
            assert(found@.take(i as int + 1).drop_last() =~= found@.take(i as int));
        }
        match found[i] {
            Some(t) => kept.push(t),
            None => {},
        }
        i = i + 1;
    }
    assert(found@.take(i as int) =~= found@);
    kept
}

/// The timestamps of the lines, in the order of the lines. Lines without a
/// timestamp in `format` are passed over.
pub fn scan_for_timestamps(lines: &[String], format: &str) -> (timestamps: Result<Vec<i64>, Error>)
    ensures
        timestamps is Ok <==> pattern_compiles(format_pattern(format@)),
        timestamps matches Ok(found) ==> found@ == timestamps_in(format@, lines@),
        timestamps matches Err(e) ==> e.reason() == pattern_rejection(format_pattern(format@)),
{
    let finder = match TimestampFinder::new(format) {
        Ok(finder) => finder,
        Err(e) => {
            return Err(e);
        },
    };
    let mut found: Vec<Option<i64>> = Vec::new();
    let mut i: usize = 0;
    while i < lines.len()
        invariant
            i <= lines@.len(),
            finder.format() == format@,
            found@.len() == i,
            forall|k: int| 0 <= k < i ==> #[trigger] found@[k] == timestamp_in(format@, lines@[k]@),
        decreases lines@.len() - i,
    {
        found.push(finder.find_timestamp(lines[i].as_str()));
        i = i + 1;
    }
    assert(found@ =~= Seq::new(lines@.len(), |i: int| timestamp_in(format@, lines@[i]@)));
    Ok(keep_found(found.as_slice()))
}

} // verus!
