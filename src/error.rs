//! The errors of reading subtitles, in one enum.
use vstd::prelude::*;

use crate::parser::io_error_text;
use crate::time::ParseTimeError;

verus! {

/// Describes all errors that may occur
#[derive(Debug)]
pub enum Error {
    /// An error when parsing subtitle position
    BadPosition,
    /// An extra time part found in subtitle, there should be start and end only
    ExtraTime,
    /// Subtitle start time is missing
    MissingStartTime,
    /// Subtitle end time is missing
    MissingEndTime,
    /// Subtitle text is missing
    MissingText,
    /// Unable to open a file
    OpenFile(std::io::Error),
    /// Unable to read data from a file
    ReadFile(std::io::Error),
    /// Could not parse start time
    ParseTimeStart(ParseTimeError),
    /// Could not parse end time
    ParseTimeEnd(ParseTimeError),
}

impl Error {
    /// Whether `t` is this error in words; a wrapped error's own words last.
    pub open spec fn message_is(&self, t: Seq<char>) -> bool {
        match self {
            Error::BadPosition => t == "invalid subtitle position"@,
            Error::ExtraTime => t == "an extra time part found, there should be start and end only"@,
            Error::MissingStartTime => t == "subtitle start time is missing"@,
            Error::MissingEndTime => t == "subtitle end time is missing"@,
            Error::MissingText => t == "subtitle text is missing"@,
            Error::OpenFile(e) => io_error_text(e, t),
            Error::ReadFile(e) => io_error_text(e, t),
            Error::ParseTimeStart(e) => exists|u: Seq<char>|
                #![trigger e.message_is(u)]
                e.message_is(u) && t == "failed to parse start time: "@ + u,
            Error::ParseTimeEnd(e) => exists|u: Seq<char>|
                #![trigger e.message_is(u)]
                e.message_is(u) && t == "failed to parse end time: "@ + u,
        }
    }

    /// What went wrong, in words.
    pub fn to_string(&self) -> (r: String)
        ensures
            self.message_is(r@),
    {
        match self {
            Error::BadPosition => "invalid subtitle position".to_owned(),
            Error::ExtraTime => "an extra time part found, there should be start and end only".to_owned(),
            Error::MissingStartTime => "subtitle start time is missing".to_owned(),
            Error::MissingEndTime => "subtitle end time is missing".to_owned(),
            Error::MissingText => "subtitle text is missing".to_owned(),
            Error::OpenFile(e) => {
                let words = e.to_string();
                assert(io_error_text(e, words@));
                words
            },
            Error::ReadFile(e) => {
                let words = e.to_string();
                assert(io_error_text(e, words@));
                words
            },
            Error::ParseTimeStart(e) => {
                let words = e.to_string();
                let mut out = "failed to parse start time: ".to_owned();
                out.append(words.as_str());
                assert(e.message_is(words@));
                out
            },
            Error::ParseTimeEnd(e) => {
                let words = e.to_string();
                let mut out = "failed to parse end time: ".to_owned();
                out.append(words.as_str());
                assert(e.message_is(words@));
                out
            },
        }
    }
}

} // verus!
