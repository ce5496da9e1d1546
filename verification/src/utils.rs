//! Moments in time as text and as timestamps. The calendar itself is the
//! calendar crate's: this module calls it and says, for each call, what is
//! believed of the result.

use vstd::prelude::*;
use vstd::string::StringExecFns;
use crate::error::DateError;

verus! {

/// The UTC seconds of midnight of the day that the calendar crate reads out
/// of a text under a date pattern; `None` where it reads no date.
pub uninterp spec fn date_seconds(text: Seq<char>, pattern: Seq<char>) -> Option<i64>;

/// The UTC seconds of the moment that the calendar crate reads out of a text
/// under a pattern of date and time; `None` where it reads no moment.
pub uninterp spec fn datetime_seconds(text: Seq<char>, pattern: Seq<char>) -> Option<i64>;

/// The text that the calendar crate writes for a moment given in UTC seconds
/// under a pattern; `None` where the moment is beyond its dates.
pub uninterp spec fn utc_text(seconds: i64, pattern: Seq<char>) -> Option<Seq<char>>;

/// The pattern of a day key: `2025-07-08`.
pub open spec fn day_pattern() -> Seq<char> {
    "%Y-%m-%d"@
}

/// The pattern of a row's date and time, joined by a space: `20250708 100000`.
pub open spec fn moment_pattern() -> Seq<char> {
    "%Y%m%d %H%M%S"@
}

/// Calls `chrono::NaiveDate::parse_from_str`, puts the date at midnight and
/// takes its UTC timestamp. Trusted: the result is what `date_seconds` names
/// for this text and pattern, and, being the timestamp of a midnight, a whole
/// number of days.
#[verifier::external_body]
fn parse_date(text: &str, pattern: &str) -> (r: Option<i64>)
    ensures
        r == date_seconds(text@, pattern@),
        r matches Some(seconds) ==> seconds as int % 86_400 == 0,
{
    match chrono::NaiveDate::parse_from_str(text, pattern) {
        Ok(date) => match date.and_hms_opt(0, 0, 0) {
            Some(moment) => Some(moment.and_utc().timestamp()),
            None => None,
        },
        Err(_) => None,
    }
}

/// Calls `chrono::NaiveDateTime::parse_from_str` and takes the UTC timestamp
/// of what was read. Trusted: the result is what `datetime_seconds` names for
/// this text and pattern; nothing more is claimed.
#[verifier::external_body]
fn parse_datetime(text: &str, pattern: &str) -> (r: Option<i64>)
    ensures
        r == datetime_seconds(text@, pattern@),
{
    match chrono::NaiveDateTime::parse_from_str(text, pattern) {
        Ok(moment) => Some(moment.and_utc().timestamp()),
        Err(_) => None,
    }
}

/// Calls `chrono::DateTime::from_timestamp` and writes the moment out with
/// `chrono::DateTime::format`. Trusted: the text is what `utc_text` names for
/// these seconds and this pattern, and there is none exactly where that name
/// has none. Only the two patterns of this library are let in: the crate
/// fails on a pattern that it cannot read.
#[verifier::external_body]
fn write_utc(seconds: i64, pattern: &str) -> (r: Option<String>)
    requires
        pattern@ == day_pattern() || pattern@ == moment_pattern(),
    ensures
        match r {
            Some(text) => utc_text(seconds, pattern@) == Some(text@),
            None => utc_text(seconds, pattern@).is_none(),
        },
{
    match chrono::DateTime::from_timestamp(seconds, 0) {
        Some(moment) => Some(moment.format(pattern).to_string()),
        None => None,
    }
}

/// The timestamp that stands for a moment read from text: the seconds
/// themselves from the epoch on, and none for a text that was not read or a
/// moment before the epoch.
pub open spec fn timestamp_of(parsed: Option<i64>) -> Result<u64, DateError> {
    match parsed {
        None => Err(DateError::Malformed),
        Some(seconds) => if seconds < 0 {
            Err(DateError::BeforeEpoch)
        } else {
            Ok(seconds as u64)
        },
    }
}

/// The timestamp of midnight of the day that `text` names.
pub open spec fn date_timestamp(text: Seq<char>) -> Result<u64, DateError> {
    timestamp_of(date_seconds(text, day_pattern()))
}

/// The timestamp of the moment that a row's date and time name: the two are
/// joined by one space and read as one text.
pub open spec fn row_timestamp(date: Seq<char>, time: Seq<char>) -> Result<u64, DateError> {
    timestamp_of(datetime_seconds(date + seq![' '] + time, moment_pattern()))
}

/// The seconds that a timestamp hands to the calendar, where they fit.
pub open spec fn calendar_seconds(timestamp: u64) -> Option<i64> {
    if timestamp <= i64::MAX {
        Some(timestamp as i64)
    } else {
        None
    }
}

/// The day key `YYYY-MM-DD` of a timestamp.
pub open spec fn date_key_text(timestamp: u64) -> Option<Seq<char>> {
    match calendar_seconds(timestamp) {
        Some(seconds) => utc_text(seconds, day_pattern()),
        None => None,
    }
}

/// The text `YYYYMMDD HHMMSS` of a timestamp.
pub open spec fn timestamp_text(timestamp: u64) -> Option<Seq<char>> {
    match calendar_seconds(timestamp) {
        Some(seconds) => utc_text(seconds, moment_pattern()),
        None => None,
    }
}

/// Turns what was read from a text into a timestamp.
pub fn timestamp_from_parsed(parsed: Option<i64>) -> (r: Result<u64, DateError>)
    ensures
        r == timestamp_of(parsed),
{
    match parsed {
        None => Err(DateError::Malformed),
        Some(seconds) => {
            if seconds < 0 {
                Err(DateError::BeforeEpoch)
            } else {
                Ok(seconds as u64)
            }
        },
    }
}

/// Reads a day key `YYYY-MM-DD` back into the timestamp of that day's
/// midnight in UTC.
pub fn parse_date_to_timestamp(date_str: &str) -> (r: Result<u64, DateError>)
    ensures
        r == date_timestamp(date_str@),
        r matches Ok(timestamp) ==> timestamp % 86_400 == 0,
{
    timestamp_from_parsed(parse_date(date_str, "%Y-%m-%d"))
}

/// Reads the date `YYYYMMDD` and the time `HHMMSS` of a row into one timestamp.
pub fn parse_row_timestamp(date: &str, time: &str) -> (r: Result<u64, DateError>)
    ensures
        r == row_timestamp(date@, time@),
{
    let mut text = String::from_str(date);
    text.append(" ");
    text.append(time);
    proof {
        reveal_strlit(" ");
        assert(" "@ =~= seq![' ']);
    }
    timestamp_from_parsed(parse_datetime(text.as_str(), "%Y%m%d %H%M%S"))
}

/// The seconds that stand for a timestamp in the calendar's own type.
pub fn seconds_for_calendar(timestamp: u64) -> (r: Option<i64>)
    ensures
        r == calendar_seconds(timestamp),
{
    if timestamp <= 0x7fff_ffff_ffff_ffff {
        Some(timestamp as i64)
    } else {
        None
    }
}

/// The day key `YYYY-MM-DD`, in UTC, of a timestamp.
pub fn date_key(timestamp: u64) -> (r: Result<String, DateError>)
    ensures
        match r {
            Ok(text) => date_key_text(timestamp) == Some(text@),
            Err(e) => e == DateError::OutOfRange && date_key_text(timestamp).is_none(),
        },
{
    match seconds_for_calendar(timestamp) {
        Some(seconds) => match write_utc(seconds, "%Y-%m-%d") {
            Some(text) => Ok(text),
            None => Err(DateError::OutOfRange),
        },
        None => Err(DateError::OutOfRange),
    }
}

/// Writes a timestamp as `YYYYMMDD HHMMSS` in UTC.
pub fn format_timestamp(ts: u64) -> (r: Result<String, DateError>)
    ensures
        match r {
            Ok(text) => timestamp_text(ts) == Some(text@),
            Err(e) => e == DateError::OutOfRange && timestamp_text(ts).is_none(),
        },
{
    match seconds_for_calendar(ts) {
        Some(seconds) => match write_utc(seconds, "%Y%m%d %H%M%S") {
            Some(text) => Ok(text),
            None => Err(DateError::OutOfRange),
        },
        None => Err(DateError::OutOfRange),
    }
}

} // verus!
