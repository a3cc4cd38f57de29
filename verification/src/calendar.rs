//! Points in time as whole seconds since 1970-01-01 00:00:00 UTC, and what
//! the calendar says of them. The calendar is `chrono`'s.

use chrono::{DateTime, Datelike, Timelike};
use vstd::prelude::*;

verus! {

/// Largest magnitude of a timestamp that the analysis takes: 2^33 seconds,
/// which reaches from the year 1697 to the year 2242.
pub const TIMESTAMP_LIMIT: i64 = 8_589_934_592;

/// Seconds in a day.
pub const SECONDS_PER_DAY: i64 = 86_400;

/// Seconds in an hour.
pub const SECONDS_PER_HOUR: i64 = 3_600;

/// The timestamp is one that the analysis takes.
pub open spec fn timestamp_in_range(timestamp: i64) -> bool {
    -TIMESTAMP_LIMIT <= timestamp <= TIMESTAMP_LIMIT
}

/// The weekday of a point in time in UTC as `chrono` numbers it, from 1 for
/// Monday to 7 for Sunday, or `None` for a time that `chrono` cannot hold.
pub uninterp spec fn utc_weekday(timestamp: i64) -> Option<u32>;

/// The hour of the day of a point in time in UTC, from 0 to 23.
pub open spec fn hour_of_day(timestamp: i64) -> int {
    (timestamp as int % SECONDS_PER_DAY as int) / SECONDS_PER_HOUR as int
}

/// Tells whether the analysis takes the timestamp.
pub fn is_timestamp_in_range(timestamp: i64) -> (ok: bool)
    ensures
        ok == timestamp_in_range(timestamp),
{
    -TIMESTAMP_LIMIT <= timestamp && timestamp <= TIMESTAMP_LIMIT
}

/// The weekday of a timestamp: `DateTime::from_timestamp`, then
/// `Datelike::weekday` and `Weekday::number_from_monday`.
///
/// Believed of `chrono`: the weekday depends on the timestamp alone, its
/// number lies between 1 and 7, and every timestamp within
/// [`TIMESTAMP_LIMIT`] is a time that `chrono` can hold (its dates reach
/// beyond the year 262 000 either way).
#[verifier::external_body]
pub(crate) fn weekday_number(timestamp: i64) -> (day: Option<u32>)
    ensures
        day == utc_weekday(timestamp),
        day matches Some(number) ==> 1 <= number <= 7,
        timestamp_in_range(timestamp) ==> day is Some,
{
    match DateTime::from_timestamp(timestamp, 0) {
        Some(moment) => Some(moment.weekday().number_from_monday()),
        None => None,
    }
}

/// The hour of the day of a timestamp: `DateTime::from_timestamp`, then
/// `Timelike::hour`.
///
/// Believed of `chrono`: it counts a timestamp as seconds since midnight of
/// 1970-01-01 UTC without leap seconds, so that the hour is the remainder of
/// the timestamp by the seconds of a day, divided by the seconds of an hour;
/// and every timestamp within [`TIMESTAMP_LIMIT`] is a time that it can hold.
#[verifier::external_body]
pub(crate) fn hour_number(timestamp: i64) -> (hour: Option<u32>)
    ensures
        hour matches Some(number) ==> number == hour_of_day(timestamp),
        timestamp_in_range(timestamp) ==> hour is Some,
{
    match DateTime::from_timestamp(timestamp, 0) {
        Some(moment) => Some(moment.hour()),
        None => None,
    }
}

} // verus!
