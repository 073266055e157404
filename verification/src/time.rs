//! Timestamps as the payment tracker stores them: plain seconds, read and
//! written in a fixed calendar format through chrono.

use std::fmt::Write;
use vstd::prelude::*;

verus! {

use crate::error::Error;

/// The calendar format dates are stored in.
pub const DEFAULT_FORMAT: &'static str = "%Y/%m/%d %H:%M";

/// A point in time as a plain seconds count, taken as if the local wall
/// clock read UTC.
#[derive(Debug, Clone, Copy, PartialEq, Eq, Structural, PartialOrd, Ord, Hash)]
pub struct FakeUtcTime {
    pub timestamp: i64,
}

/// The timestamp that a text in the given calendar format denotes, if it
/// parses.
pub uninterp spec fn parse_datetime(s: Seq<char>, fmt: Seq<char>) -> Option<i64>;

/// The calendar text of a timestamp in the given format, if the
/// timestamp is representable and the format valid.
pub uninterp spec fn format_datetime(ts: int, fmt: Seq<char>) -> Option<Seq<char>>;

/// Relies on chrono's `NaiveDateTime::parse_from_str` followed by
/// `and_utc().timestamp()`: the parsed timestamp is a function of the
/// text and the format alone.
#[verifier::external_body]
fn chrono_parse(time_str: &str, format: &str) -> (r: Option<i64>)
    ensures
        r == parse_datetime(time_str@, format@),
{
    match chrono::NaiveDateTime::parse_from_str(time_str, format) {
        Ok(d) => Some(d.and_utc().timestamp()),
        Err(_) => None,
    }
}

/// Relies on chrono's `DateTime::<Utc>::from_timestamp` and its strftime
/// formatting (`DelayedFormat` written into a buffer, so an invalid
/// format surfaces as an error, not a panic): the text is a function of
/// the timestamp and the format alone.
#[verifier::external_body]
fn chrono_format(ts: i64, format: &str) -> (r: Option<String>)
    ensures
        match r {
            Some(s) => format_datetime(ts as int, format@) == Some(s@),
            None => format_datetime(ts as int, format@) is None,
        },
{
    let dt = chrono::DateTime::<chrono::Utc>::from_timestamp(ts, 0)?;
    let mut out = String::new();
    if write!(out, "{}", dt.format(format)).is_err() {
        return None;
    }
    Some(out)
}

impl FakeUtcTime {
    /// Wraps a plain seconds count.
    pub fn from_timestamp(timestamp: i64) -> (r: FakeUtcTime)
        ensures
            r.timestamp == timestamp,
    {
        FakeUtcTime { timestamp }
    }

    /// Parses a calendar text in the given format; the offending text is
    /// carried in the error.
    pub fn parse_str_fmt(time_str: &str, format: &str) -> (r: Result<FakeUtcTime, Error>)
        ensures
            match parse_datetime(time_str@, format@) {
                Some(ts) => r matches Ok(t) && t.timestamp == ts,
                None => r matches Err(e) && e matches Error::TimeParseFailed(s) && s@
                    == time_str@,
            },
    {
        match chrono_parse(time_str, format) {
            Some(ts) => Ok(FakeUtcTime { timestamp: ts }),
            None => Err(Error::TimeParseFailed(time_str.to_owned())),
        }
    }

    /// Parses a calendar text in the stored format.
    pub fn parse_str(time_str: &str) -> (r: Result<FakeUtcTime, Error>)
        ensures
            match parse_datetime(time_str@, DEFAULT_FORMAT@) {
                Some(ts) => r matches Ok(t) && t.timestamp == ts,
                None => r matches Err(e) && e matches Error::TimeParseFailed(s) && s@
                    == time_str@,
            },
    {
        FakeUtcTime::parse_str_fmt(time_str, DEFAULT_FORMAT)
    }

    /// Writes the time as calendar text in the given format; the
    /// unrepresentable time is carried in the error.
    pub fn format_str_fmt(&self, format: &str) -> (r: Result<String, Error>)
        ensures
            match format_datetime(self.timestamp as int, format@) {
                Some(s) => r matches Ok(t) && t@ == s,
                None => r == Err::<String, Error>(Error::TimeFormatFailed(*self)),
            },
    {
        match chrono_format(self.timestamp, format) {
            Some(s) => Ok(s),
            None => Err(Error::TimeFormatFailed(*self)),
        }
    }

    /// Writes the time as calendar text in the stored format.
    pub fn format_str(&self) -> (r: Result<String, Error>)
        ensures
            match format_datetime(self.timestamp as int, DEFAULT_FORMAT@) {
                Some(s) => r matches Ok(t) && t@ == s,
                None => r == Err::<String, Error>(Error::TimeFormatFailed(*self)),
            },
    {
        self.format_str_fmt(DEFAULT_FORMAT)
    }
}

impl From<i64> for FakeUtcTime {
    fn from(value: i64) -> (r: FakeUtcTime) {
        FakeUtcTime { timestamp: value }
    }
}

impl vstd::std_specs::convert::FromSpecImpl<i64> for FakeUtcTime {
    open spec fn obeys_from_spec() -> bool {
        true
    }

    open spec fn from_spec(value: i64) -> FakeUtcTime {
        FakeUtcTime { timestamp: value }
    }
}

} // verus!
