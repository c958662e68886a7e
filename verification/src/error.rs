//! The conditions that end a run.

use vstd::prelude::*;
use vstd::string::*;

verus! {

/// Why a run cannot produce a picture.
#[derive(Debug, PartialEq, Eq)]
pub enum Error {
    /// The timestamp format compiles to a pattern that the regex engine
    /// rejects, for the reason that it gave.
    InvalidFormat(String),
    /// No line carried a timestamp, so there is nothing to draw.
    NoMatchingTimestamps,
}

impl Error {
    /// The reason that the regex engine gave, where the format is at fault.
    pub open spec fn reason(&self) -> Option<Seq<char>> {
        match *self {
            Error::InvalidFormat(reason) => Some(reason@),
            Error::NoMatchingTimestamps => None,
        }
    }

    /// What the message says.
    pub open spec fn message_text(&self) -> Seq<char> {
        match *self {
            Error::InvalidFormat(reason) => reason@,
            Error::NoMatchingTimestamps => "Found no lines with a matching timestamp"@,
        }
    }

    /// The message shown to the operator: the regex engine's reason for a
    /// format that is at fault.
    pub fn message(&self) -> (text: String)
        ensures
            text@ == self.message_text(),
    {
        match self {
            Error::InvalidFormat(reason) => reason.clone(),
            Error::NoMatchingTimestamps => String::from_str(
                "Found no lines with a matching timestamp",
            ),
        }
    }
}

} // verus!
