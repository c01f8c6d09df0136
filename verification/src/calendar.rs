//! The local clock, as `chrono` sees it: the offset of local time from UTC
//! at an instant, the instant at which a local wall-clock time occurs, and
//! RFC 3339 timestamps.
//!
//! Instants and wall-clock times are milliseconds counted from the epoch
//! (a wall-clock time as if it were UTC).

use vstd::prelude::*;
use chrono::TimeZone;

verus! {

/// The earliest and latest millisecond timestamps that a `chrono::DateTime`
/// can hold (years -262143 to 262142), rounded outwards.
pub open spec fn earliest_datetime_millis() -> int {
    -8_400_000_000_000_000
}

pub open spec fn latest_datetime_millis() -> int {
    8_400_000_000_000_000
}

/// A `chrono::FixedOffset` is less than a day away from UTC, in seconds.
pub open spec fn offset_in_range(seconds: int) -> bool {
    -86_400 < seconds < 86_400
}

/// `chrono::DateTime::from_timestamp_millis(millis)`, then
/// `Local.offset_from_utc_datetime` of that instant, read out with
/// `FixedOffset::local_minus_utc`: how many seconds local time is ahead of
/// UTC at the instant. `None` when the instant is outside chrono's range
/// (years -262143 to 262142), so an answer comes for every instant well
/// within it and only for instants within it. The offset is that of
/// a `FixedOffset`, less than a day; which offset it is depends on the
/// machine's time zone and is not stated. (The lookup panics only when the
/// machine's time-zone data cannot classify an instant in range.)
#[verifier::external_body]
pub(crate) fn local_offset_seconds(millis: i64) -> (r: Option<i32>)
    ensures
        r matches Some(s) ==> offset_in_range(s as int) && earliest_datetime_millis() <= millis
            <= latest_datetime_millis(),
        -8_200_000_000_000_000 <= millis <= 8_200_000_000_000_000 ==> r is Some,
{
    chrono::DateTime::from_timestamp_millis(millis).map(
        |utc| chrono::Local.offset_from_utc_datetime(&utc.naive_utc()).local_minus_utc(),
    )
}

/// `chrono::DateTime::from_timestamp_millis(wall)` read as a naive
/// wall-clock time, then `Local.from_local_datetime`, kept only when the
/// local time names one instant (`MappedLocalTime::single`), read out with
/// `timestamp_millis`. The instant is the wall-clock time minus the local
/// offset then in force, which is less than a day (and a whole number of
/// seconds); which offset it is depends on the machine's time zone and is
/// not stated, nor when a wall-clock time is skipped or repeated.
#[verifier::external_body]
pub(crate) fn local_wall_to_utc_millis(wall: i64) -> (r: Option<i64>)
    ensures
        r matches Some(t) ==> wall - 86_400_000 < t < wall + 86_400_000,
{
    chrono::DateTime::from_timestamp_millis(wall)
        .and_then(|naive| chrono::Local.from_local_datetime(&naive.naive_utc()).single())
        .map(|instant| instant.timestamp_millis())
}

/// Whether `chrono::DateTime::parse_from_rfc3339` accepts a text.
pub uninterp spec fn rfc3339_accepts(text: Seq<char>) -> bool;

/// `chrono::DateTime::parse_from_rfc3339(text).is_ok()`.
#[verifier::external_body]
pub(crate) fn is_rfc3339(text: &str) -> (r: bool)
    ensures
        r == rfc3339_accepts(text@),
{
    chrono::DateTime::parse_from_rfc3339(text).is_ok()
}

} // verus!
