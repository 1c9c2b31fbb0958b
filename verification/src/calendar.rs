//! Calendar features of a timestamp, in UTC.

use chrono::{DateTime, Datelike, Timelike, Utc};
use vstd::prelude::*;

verus! {

/// The latest timestamp that the library accepts: the last second of the
/// year 9999.
pub const MAX_TIMESTAMP: u64 = 253_402_300_799;

/// The hour of the day, from 0 to 23, of a timestamp in seconds since the
/// Unix epoch.
pub open spec fn hour_of(timestamp: u64) -> int {
    (timestamp as int / 3600) % 24
}

/// The day of the week of a timestamp in seconds since the Unix epoch,
/// counted from Monday as 0. The epoch was a Thursday.
pub open spec fn weekday_of(timestamp: u64) -> int {
    (timestamp as int / 86400 + 3) % 7
}

/// Calls `chrono::DateTime::<Utc>::from_timestamp` and `Timelike::hour`.
/// Trusted: for a timestamp in chrono's range, the hour of the UTC date and
/// time is the number of whole hours into the day.
#[verifier::external_body]
pub(crate) fn utc_hour(timestamp: u64) -> (hour: u32)
    requires
        timestamp <= MAX_TIMESTAMP,
    ensures
        hour == hour_of(timestamp),
{
    DateTime::<Utc>::from_timestamp(timestamp as i64, 0).unwrap().hour()
}

/// Calls `chrono::DateTime::<Utc>::from_timestamp`, `Datelike::weekday` and
/// `Weekday::num_days_from_monday`. Trusted: for a timestamp in chrono's
/// range, the weekday of the UTC date is that of the epoch, a Thursday,
/// advanced by the number of whole days.
#[verifier::external_body]
pub(crate) fn utc_weekday(timestamp: u64) -> (day: u32)
    requires
        timestamp <= MAX_TIMESTAMP,
    ensures
        day == weekday_of(timestamp),
{
    DateTime::<Utc>::from_timestamp(timestamp as i64, 0).unwrap().weekday().num_days_from_monday()
}

/// The hour of the day and the day of the week of a timestamp.
pub fn hour_and_weekday(timestamp: u64) -> (r: (u32, u32))
    requires
        timestamp <= MAX_TIMESTAMP,
    ensures
        r.0 == hour_of(timestamp),
        r.1 == weekday_of(timestamp),
        r.0 < 24,
        r.1 < 7,
{
    (utc_hour(timestamp), utc_weekday(timestamp))
}

} // verus!
