//! Time codes: the `H:MM:SS,mmm` form of a subtitle's start and end.
use vstd::prelude::*;

use core::num::ParseIntError;
use core::time::Duration;
use vstd::string::to_string_from_display_ensures;

use crate::text::{
    chars_of, decimal, decimal2, find_char, lemma_split_step, push_char, push_decimal, push_decimal2,
    read_u64, reads_within, split, string_of, trim, trim_bounds, unsigned_value,
};

verus! {

/// Describes the time when a subtitle should appear or disappear.
///
/// No component is range-checked: the value is four counts that add up.
#[derive(Clone, Copy, Debug, PartialEq, Eq, Structural)]
pub struct Time {
    /// Number of hours
    pub hours: u64,
    /// Number of minutes
    pub minutes: u64,
    /// Number of seconds
    pub seconds: u64,
    /// Number of milliseconds
    pub milliseconds: u64,
}

/// The duration of a number of milliseconds.
pub uninterp spec fn millis_duration(ms: u64) -> Duration;

/// Relies on Duration::from_millis, which depends on its argument alone.
#[verifier::external_body]
fn duration_from_millis(ms: u64) -> (d: Duration)
    ensures
        d == millis_duration(ms),
{
    Duration::from_millis(ms)
}

impl Time {
    /// The whole time in milliseconds.
    pub open spec fn millis(self) -> nat {
        (self.milliseconds + 1000 * (self.seconds + 60 * (self.minutes + 60 * self.hours))) as nat
    }

    /// The time in its display form, `HH:MM:SS,mmm`: hours, minutes and
    /// seconds padded to two digits, milliseconds as they are.
    pub open spec fn text(self) -> Seq<char> {
        decimal2(self.hours as nat) + seq![':'] + decimal2(self.minutes as nat) + seq![':']
            + decimal2(self.seconds as nat) + seq![','] + decimal(self.milliseconds as nat)
    }

    /// Converts the time into a `Duration` of `millis()` milliseconds.
    pub fn into_duration(self) -> (d: Duration)
        requires
            self.millis() <= u64::MAX,
        ensures
            d == millis_duration(self.millis() as u64),
    {
        let ms = self.total_millis();
        duration_from_millis(ms)
    }

    /// The time in milliseconds:
    /// `milliseconds + 1000 * (seconds + 60 * (minutes + 60 * hours))`.
    pub fn total_millis(&self) -> (r: u64)
        requires
            self.millis() <= u64::MAX,
        ensures
            r == self.millis(),
    {
        proof {
            assert(self.hours * 60 <= self.minutes + 60 * self.hours) by (nonlinear_arith);
            assert(60 * (self.minutes + 60 * self.hours) <= self.seconds + 60 * (self.minutes
                + 60 * self.hours)) by (nonlinear_arith);
            assert(1000 * (self.seconds + 60 * (self.minutes + 60 * self.hours)) <= self.millis())
                by (nonlinear_arith);
            assert(60 * (self.minutes + 60 * self.hours) <= 1000 * (self.seconds + 60 * (
            self.minutes + 60 * self.hours))) by (nonlinear_arith);
            assert(60 * self.hours <= 60 * (self.minutes + 60 * self.hours)) by (nonlinear_arith);
        }
        let minutes = self.minutes + self.hours * 60;
        let seconds = self.seconds + minutes * 60;
        self.milliseconds + seconds * 1000
    }

    /// The time in its display form.
    pub fn to_string(&self) -> (r: String)
        ensures
            r@ == self.text(),
    {
        let mut out = String::new();
        push_decimal2(&mut out, self.hours);
        push_char(&mut out, ':');
        push_decimal2(&mut out, self.minutes);
        push_char(&mut out, ':');
        push_decimal2(&mut out, self.seconds);
        push_char(&mut out, ',');
        push_decimal(&mut out, self.milliseconds);
        assert(out@ =~= self.text());
        out
    }
}

} // verus!

verus! {

/// What went wrong in reading a time code, without the integer errors' detail.
pub enum TimeFault {
    ParseHours,
    ParseMilliseconds,
    ParseMinutes,
    ParseSeconds,
    MissingHours,
    MissingMilliseconds,
    MissingMinutes,
    MissingSeconds,
    MissingTime,
    UnexpectedTimePart(Seq<char>),
}

/// An error when parsing time
#[derive(Debug)]
pub enum ParseTimeError {
    /// Hours does not contain an integer
    ParseHours(ParseIntError),
    /// Milliseconds does not contain an integer
    ParseMilliseconds(ParseIntError),
    /// Minutes does not contain an integer
    ParseMinutes(ParseIntError),
    /// Seconds does not contain an integer
    ParseSeconds(ParseIntError),
    /// Hours not found in time part
    MissingHours,
    /// Milliseconds not found in time part
    MissingMilliseconds,
    /// Minutes not found in time part
    MissingMinutes,
    /// Seconds not found in time part
    MissingSeconds,
    /// Time part is empty
    MissingTime,
    /// Got an unexpected part of time
    UnexpectedTimePart(String),
}

impl View for ParseTimeError {
    type V = TimeFault;

    open spec fn view(&self) -> TimeFault {
        match self {
            ParseTimeError::ParseHours(_) => TimeFault::ParseHours,
            ParseTimeError::ParseMilliseconds(_) => TimeFault::ParseMilliseconds,
            ParseTimeError::ParseMinutes(_) => TimeFault::ParseMinutes,
            ParseTimeError::ParseSeconds(_) => TimeFault::ParseSeconds,
            ParseTimeError::MissingHours => TimeFault::MissingHours,
            ParseTimeError::MissingMilliseconds => TimeFault::MissingMilliseconds,
            ParseTimeError::MissingMinutes => TimeFault::MissingMinutes,
            ParseTimeError::MissingSeconds => TimeFault::MissingSeconds,
            ParseTimeError::MissingTime => TimeFault::MissingTime,
            ParseTimeError::UnexpectedTimePart(part) => TimeFault::UnexpectedTimePart(part@),
        }
    }
}

/// The value of a decimal field of a time code, when it reads as a `u64`.
pub open spec fn field(s: Seq<char>) -> u64 {
    unsigned_value(s)->0 as u64
}

/// Whether a field reads as a `u64`.
pub open spec fn field_ok(s: Seq<char>) -> bool {
    reads_within(s, u64::MAX as nat)
}

/// What a time code reads as. The text is trimmed, split once at the first
/// comma into a clock and milliseconds, and the clock split at colons into
/// hours, minutes and seconds; a fourth clock part or a third comma part is
/// unexpected.
pub open spec fn time_of(raw: Seq<char>) -> Result<Time, TimeFault> {
    let p = split(trim(raw), ',');
    let c = split(p[0], ':');
    if !field_ok(c[0]) {
        Err(TimeFault::ParseHours)
    } else if c.len() < 2 {
        Err(TimeFault::MissingMinutes)
    } else if !field_ok(c[1]) {
        Err(TimeFault::ParseMinutes)
    } else if c.len() < 3 {
        Err(TimeFault::MissingSeconds)
    } else if !field_ok(c[2]) {
        Err(TimeFault::ParseSeconds)
    } else if c.len() > 3 {
        Err(TimeFault::UnexpectedTimePart(c[3]))
    } else if p.len() < 2 {
        Err(TimeFault::MissingMilliseconds)
    } else if !field_ok(p[1]) {
        Err(TimeFault::ParseMilliseconds)
    } else if p.len() > 2 {
        Err(TimeFault::UnexpectedTimePart(p[2]))
    } else {
        Ok(
            Time {
                hours: field(c[0]),
                minutes: field(c[1]),
                seconds: field(c[2]),
                milliseconds: field(p[1]),
            },
        )
    }
}

/// The view of a time parse's result.
pub open spec fn time_result(r: Result<Time, ParseTimeError>) -> Result<Time, TimeFault> {
    match r {
        Ok(t) => Ok(t),
        Err(e) => Err(e@),
    }
}

impl Time {
    /// Parses the time code in `v[lo..hi]`.
    pub fn parse_chars(v: &Vec<char>, lo: usize, hi: usize) -> (r: Result<Time, ParseTimeError>)
        requires
            lo <= hi <= v.len(),
        ensures
            time_result(r) == time_of(v@.subrange(lo as int, hi as int)),
    {
        let ghost raw = v@.subrange(lo as int, hi as int);
        let (a, b) = trim_bounds(v, lo, hi);
        let ghost t = v@.subrange(a as int, b as int);
        let k1 = find_char(v, a, b, ',');
        proof {
            lemma_split_step(v@, a as int, b as int, ',', k1 as int);
        }
        let ghost p = split(t, ',');
        let c1 = find_char(v, a, k1, ':');
        proof {
            lemma_split_step(v@, a as int, k1 as int, ':', c1 as int);
        }
        let ghost c = split(v@.subrange(a as int, k1 as int), ':');
        let hours = match read_u64(v, a, c1) {
            Ok(n) => n,
            Err(e) => {
                return Err(ParseTimeError::ParseHours(e));
            },
        };
        if c1 == k1 {
            return Err(ParseTimeError::MissingMinutes);
        }
        let c2 = find_char(v, c1 + 1, k1, ':');
        proof {
            lemma_split_step(v@, c1 + 1, k1 as int, ':', c2 as int);
        }
        let minutes = match read_u64(v, c1 + 1, c2) {
            Ok(n) => n,
            Err(e) => {
                return Err(ParseTimeError::ParseMinutes(e));
            },
        };
        if c2 == k1 {
            return Err(ParseTimeError::MissingSeconds);
        }
        let c3 = find_char(v, c2 + 1, k1, ':');
        proof {
            lemma_split_step(v@, c2 + 1, k1 as int, ':', c3 as int);
        }
        let seconds = match read_u64(v, c2 + 1, c3) {
            Ok(n) => n,
            Err(e) => {
                return Err(ParseTimeError::ParseSeconds(e));
            },
        };
        if c3 < k1 {
            let c4 = find_char(v, c3 + 1, k1, ':');
            proof {
                lemma_split_step(v@, c3 + 1, k1 as int, ':', c4 as int);
            }
            return Err(ParseTimeError::UnexpectedTimePart(string_of(v, c3 + 1, c4)));
        }
        if k1 == b {
            return Err(ParseTimeError::MissingMilliseconds);
        }
        let k2 = find_char(v, k1 + 1, b, ',');
        proof {
            lemma_split_step(v@, k1 + 1, b as int, ',', k2 as int);
        }
        let milliseconds = match read_u64(v, k1 + 1, k2) {
            Ok(n) => n,
            Err(e) => {
                return Err(ParseTimeError::ParseMilliseconds(e));
            },
        };
        if k2 < b {
            let k3 = find_char(v, k2 + 1, b, ',');
            proof {
                lemma_split_step(v@, k2 + 1, b as int, ',', k3 as int);
            }
            return Err(ParseTimeError::UnexpectedTimePart(string_of(v, k2 + 1, k3)));
        }
        Ok(Time { hours, minutes, seconds, milliseconds })
    }

    /// Parses a time code.
    pub fn parse(raw: &str) -> (r: Result<Time, ParseTimeError>)
        ensures
            time_result(r) == time_of(raw@),
    {
        let v = chars_of(raw);
        assert(v@.subrange(0, v@.len() as int) =~= raw@);
        Time::parse_chars(&v, 0, v.len())
    }
}

impl core::str::FromStr for Time {
    type Err = ParseTimeError;

    fn from_str(raw: &str) -> Result<Time, ParseTimeError> {
        Time::parse(raw)
    }
}

/// Whether `t` is what `e` shows as text.
pub open spec fn int_error_text(e: &ParseIntError, t: Seq<char>) -> bool {
    exists|u: String| #[trigger] to_string_from_display_ensures::<ParseIntError>(e, u) && u@ == t
}

impl ParseTimeError {
    /// Whether `t` is this error in words: the field that failed, and an
    /// integer error's own words after it.
    pub open spec fn message_is(&self, t: Seq<char>) -> bool {
        match self {
            ParseTimeError::ParseHours(e) => exists|u: Seq<char>|
                #![trigger int_error_text(e, u)]
                int_error_text(e, u) && t == "could not parse hours: "@ + u,
            ParseTimeError::ParseMinutes(e) => exists|u: Seq<char>|
                #![trigger int_error_text(e, u)]
                int_error_text(e, u) && t == "could not parse minutes: "@ + u,
            ParseTimeError::ParseSeconds(e) => exists|u: Seq<char>|
                #![trigger int_error_text(e, u)]
                int_error_text(e, u) && t == "could not parse seconds: "@ + u,
            ParseTimeError::ParseMilliseconds(e) => exists|u: Seq<char>|
                #![trigger int_error_text(e, u)]
                int_error_text(e, u) && t == "could not parse milliseconds: "@ + u,
            ParseTimeError::MissingHours => t == "hours not found"@,
            ParseTimeError::MissingMinutes => t == "minutes not found"@,
            ParseTimeError::MissingSeconds => t == "seconds not found"@,
            ParseTimeError::MissingMilliseconds => t == "milliseconds not found"@,
            ParseTimeError::MissingTime => t == "time not found"@,
            ParseTimeError::UnexpectedTimePart(part) => t == "unexpected time part: '"@ + part@
                + "'"@,
        }
    }

    /// What went wrong, in words.
    pub fn to_string(&self) -> (r: String)
        ensures
            self.message_is(r@),
    {
        let (head, inner) = match self {
            ParseTimeError::ParseHours(e) => ("could not parse hours: ", e),
            ParseTimeError::ParseMinutes(e) => ("could not parse minutes: ", e),
            ParseTimeError::ParseSeconds(e) => ("could not parse seconds: ", e),
            ParseTimeError::ParseMilliseconds(e) => ("could not parse milliseconds: ", e),
            ParseTimeError::MissingHours => {
                return "hours not found".to_owned();
            },
            ParseTimeError::MissingMinutes => {
                return "minutes not found".to_owned();
            },
            ParseTimeError::MissingSeconds => {
                return "seconds not found".to_owned();
            },
            ParseTimeError::MissingMilliseconds => {
                return "milliseconds not found".to_owned();
            },
            ParseTimeError::MissingTime => {
                return "time not found".to_owned();
            },
            ParseTimeError::UnexpectedTimePart(part) => {
                let mut out = "unexpected time part: '".to_owned();
                out.append(part.as_str());
                out.append("'");
                return out;
            },
        };
        let words = inner.to_string();
        let mut out = head.to_owned();
        out.append(words.as_str());
        assert(int_error_text(inner, words@));
        out
    }
}

} // verus!
