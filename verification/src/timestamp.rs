//! Timestamps of the one accepted form, and the window of seconds between
//! two of them.

use vstd::prelude::*;
use vstd::string::StringSliceAdditionalSpecFns;

verus! {

/// The one form in which the ends of a window are written:
/// `YYYY-MM-DD HH:MM:SS`.
pub const TIMESTAMP_FORMAT: &'static str = "%Y-%m-%d %H:%M:%S";

/// A half-open range of seconds since the epoch: `start` is in it, `end` is
/// not. Where `end` is not above `start`, it holds no second.
#[derive(Clone, Copy, Debug, PartialEq, Eq, Structural)]
pub struct TimeWindow {
    pub start: i64,
    pub end: i64,
}

/// Which end of a window was not a timestamp.
#[derive(Clone, Copy, Debug, PartialEq, Eq, Structural)]
pub enum WindowError {
    Start,
    End,
}

/// An ASCII digit.
pub open spec fn is_digit(byte: u8) -> bool {
    0x30 <= byte <= 0x39
}

/// The byte that the form of a timestamp asks for at place `i`: a hyphen, a
/// space or a colon between the fields, and a digit anywhere else.
pub open spec fn fits_timestamp_at(i: int, byte: u8) -> bool {
    if i == 4 || i == 7 {
        byte == 0x2d
    } else if i == 10 {
        byte == 0x20
    } else if i == 13 || i == 16 {
        byte == 0x3a
    } else {
        is_digit(byte)
    }
}

/// Whether `text` has the form `YYYY-MM-DD HH:MM:SS`: nineteen bytes, digits
/// in the fields and the separators between them.
pub open spec fn timestamp_shape(text: Seq<u8>) -> bool {
    &&& text.len() == 19
    &&& forall|i: int| 0 <= i < 19 ==> fits_timestamp_at(i, #[trigger] text[i])
}

/// The number that the two digits at the places `at` and `at + 1` stand for.
pub open spec fn two_digits(text: Seq<u8>, at: int) -> int {
    (text[at] - 0x30) * 10 + (text[at + 1] - 0x30)
}

/// Whether the fields of a text of the form of a timestamp are within what
/// the parser takes: a month from 1 to 12, a day from 1 to 31, an hour up to
/// 23, a minute up to 59, and a second up to 60. Any year is taken, and the
/// day is not held against the month.
pub open spec fn timestamp_in_range(text: Seq<u8>) -> bool {
    &&& 1 <= two_digits(text, 5) <= 12
    &&& 1 <= two_digits(text, 8) <= 31
    &&& two_digits(text, 11) <= 23
    &&& two_digits(text, 14) <= 59
    &&& two_digits(text, 17) <= 60
}

/// The second, counted from the epoch, that `time::strptime` and
/// `Tm::to_timespec` make of `text` read by `format`; nothing where
/// `strptime` fails.
pub uninterp spec fn strptime_seconds(text: Seq<char>, format: Seq<char>) -> Option<i64>;

/// The second that a timestamp names: what the parser makes of a text of the
/// form `YYYY-MM-DD HH:MM:SS`, and nothing for any other text.
pub open spec fn timestamp_of(text: &str) -> Option<i64> {
    if timestamp_shape(text.spec_bytes()) {
        strptime_seconds(text@, TIMESTAMP_FORMAT@)
    } else {
        None
    }
}

/// The window between two ends as they were read. The start is looked at
/// first: a window without a start is turned down for its start, whatever
/// its end is.
pub open spec fn window_of(start: Option<i64>, end: Option<i64>) -> Result<
    TimeWindow,
    WindowError,
> {
    match (start, end) {
        (None, _) => Err(WindowError::Start),
        (Some(_), None) => Err(WindowError::End),
        (Some(from), Some(until)) => Ok(TimeWindow { start: from, end: until }),
    }
}

/// Calls `time::strptime` on `text` with `format` and, on what it parsed,
/// `Tm::to_timespec`, of which it hands back the seconds. Trusted: the result
/// depends on the two texts alone. `strptime` starts from a `Tm` at offset
/// zero from UTC, and no field of the accepted format changes the offset, so
/// `to_timespec` counts in UTC and asks neither the clock nor the time zone
/// of the machine. The format is held to `TIMESTAMP_FORMAT`, on which no
/// field's arithmetic can overflow. Trusted too, from the source of
/// `strptime`: on a text of the form of a timestamp it fails only where a
/// field is out of the range that `%m`, `%d`, `%H`, `%M` or `%S` takes.
#[verifier::external_body]
fn strptime_to_seconds(text: &str, format: &str) -> (seconds: Option<i64>)
    requires
        format@ == TIMESTAMP_FORMAT@,
    ensures
        seconds == strptime_seconds(text@, format@),
        timestamp_shape(text.spec_bytes()) ==> (seconds is Some <==> timestamp_in_range(
            text.spec_bytes(),
        )),
{
    match time::strptime(text, format) {
        Ok(tm) => Some(tm.to_timespec().sec),
        Err(_) => None,
    }
}

/// Whether `text` has the form of a timestamp.
pub fn has_timestamp_shape(text: &[u8]) -> (ok: bool)
    ensures
        ok == timestamp_shape(text@),
{
    if text.len() != 19 {
        return false;
    }
    let mut i: usize = 0;
    while i < 19
        invariant
            0 <= i <= 19,
            text@.len() == 19,
            forall|j: int| 0 <= j < i ==> fits_timestamp_at(j, #[trigger] text@[j]),
        decreases 19 - i,
    {
        let byte = text[i];
        let fits = if i == 4 || i == 7 {
            byte == 45u8
        } else if i == 10 {
            byte == 32u8
        } else if i == 13 || i == 16 {
            byte == 58u8
        } else {
            48u8 <= byte && byte <= 57u8
        };
        if !fits {
            return false;
        }
        i += 1;
    }
    true
}

/// Reads one end of a window: the second that the timestamp names, counted
/// from the epoch in UTC. A text that has not the form
/// `YYYY-MM-DD HH:MM:SS` is turned down before it is parsed; one of that form
/// is turned down where a field is out of range (a month 13, an hour 24).
pub fn parse_timestamp(text: &str) -> (seconds: Option<i64>)
    ensures
        seconds == timestamp_of(text),
        seconds is Some <==> timestamp_shape(text.spec_bytes()) && timestamp_in_range(
            text.spec_bytes(),
        ),
{
    if !has_timestamp_shape(text.as_bytes()) {
        return None;
    }
    strptime_to_seconds(text, TIMESTAMP_FORMAT)
}

/// The window between two ends as they were read, or the end for which
/// there is none.
pub fn window_between(start: Option<i64>, end: Option<i64>) -> (window: Result<
    TimeWindow,
    WindowError,
>)
    ensures
        window == window_of(start, end),
{
    match start {
        None => Err(WindowError::Start),
        Some(from) => match end {
            None => Err(WindowError::End),
            Some(until) => Ok(TimeWindow { start: from, end: until }),
        },
    }
}

/// Reads the two ends of a window from their timestamps.
pub fn parse_window(start: &str, end: &str) -> (window: Result<TimeWindow, WindowError>)
    ensures
        window == window_of(timestamp_of(start), timestamp_of(end)),
{
    window_between(parse_timestamp(start), parse_timestamp(end))
}

} // verus!
