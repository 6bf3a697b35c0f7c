//! The calendar model: civil dates and times are turned into absolute
//! timestamps, counted in microseconds since 1970-01-01T00:00:00 UTC.
//!
//! The proleptic Gregorian calendar is used. A civil field set is valid when
//! the month, day and time components are in range; a day is checked against
//! the length of its month, February against leap years.

use vstd::prelude::*;
use crate::Timestamp;

verus! {

/// The year bounds the date context can come from: one year inside what a
/// calendar date of the `chrono` crate can carry.
pub const MIN_CONTEXT_YEAR: i64 = -262143;
/// See `MIN_CONTEXT_YEAR`.
pub const MAX_CONTEXT_YEAR: i64 = 262142;

pub open spec fn is_leap_year(y: int) -> bool {
    (y % 4 == 0 && y % 100 != 0) || y % 400 == 0
}

pub open spec fn days_in_month(y: int, m: int) -> int
    recommends
        1 <= m <= 12,
{
    if m == 2 {
        if is_leap_year(y) {
            29
        } else {
            28
        }
    } else if m == 4 || m == 6 || m == 9 || m == 11 {
        30
    } else {
        31
    }
}

/// A valid civil date: month in range, day within the month's length.
pub open spec fn valid_ymd(y: int, m: int, d: int) -> bool {
    1 <= m <= 12 && 1 <= d <= days_in_month(y, m)
}

/// A valid time of day; second 60 stands for a leap second, which counts
/// as the first second of the following minute.
pub open spec fn valid_hms(h: int, mi: int, s: int) -> bool {
    0 <= h <= 23 && 0 <= mi <= 59 && 0 <= s <= 60
}

/// Days between 1970-01-01 and the given civil date (negative for earlier
/// dates). The year is shifted by 400000 (1000 whole 400-year eras) so that
/// every intermediate quantity is nonnegative.
pub open spec fn days_from_civil(y: int, m: int, d: int) -> int
    recommends
        valid_ymd(y, m, d),
        MIN_CONTEXT_YEAR <= y <= MAX_CONTEXT_YEAR,
{
    let yy = (if m <= 2 { y - 1 } else { y }) + 400000;
    let era = yy / 400;
    let yoe = yy % 400;
    let mp = if m >= 3 { m - 3 } else { m + 9 };
    let doy = (153 * mp + 2) / 5 + d - 1;
    let doe = yoe * 365 + yoe / 4 - yoe / 100 + doy;
    era * 146097 + doe - 719468 - 146097000
}

/// The absolute timestamp, in microseconds, of a civil date and time read in
/// a zone `off_secs` seconds east of UTC, with `frac` fractional microseconds.
pub open spec fn civil_micros(
    y: int,
    m: int,
    d: int,
    h: int,
    mi: int,
    s: int,
    frac: int,
    off_secs: int,
) -> int {
    days_from_civil(y, m, d) * 86400000000 + (h * 3600 + mi * 60 + s) * 1000000 + frac
        - off_secs * 1000000
}

pub fn leap_year(y: i64) -> (r: bool)
    ensures
        r == is_leap_year(y as int),
{
    (y % 4 == 0 && y % 100 != 0) || y % 400 == 0
}

pub fn month_length(y: i64, m: u64) -> (r: u64)
    requires
        1 <= m <= 12,
    ensures
        r == days_in_month(y as int, m as int),
{
    if m == 2 {
        if leap_year(y) {
            29
        } else {
            28
        }
    } else if m == 4 || m == 6 || m == 9 || m == 11 {
        30
    } else {
        31
    }
}

/// Builds the timestamp of a valid civil date and time.
pub fn timestamp_from_civil(
    y: i64,
    m: u64,
    d: u64,
    h: u64,
    mi: u64,
    s: u64,
    frac: u64,
    off_secs: i64,
) -> (r: Timestamp)
    requires
        MIN_CONTEXT_YEAR <= y <= MAX_CONTEXT_YEAR,
        valid_ymd(y as int, m as int, d as int),
        valid_hms(h as int, mi as int, s as int),
        frac < 1000000,
        -86400 < off_secs < 86400,
    ensures
        r.micros == civil_micros(
            y as int,
            m as int,
            d as int,
            h as int,
            mi as int,
            s as int,
            frac as int,
            off_secs as int,
        ),
{
    let yy: u64 = ((if m <= 2 {
        y - 1
    } else {
        y
    }) + 400000) as u64;
    assert(yy <= 662142);
    let era: u64 = yy / 400;
    let yoe: u64 = yy % 400;
    proof {
        vstd::arithmetic::div_mod::lemma_div_is_ordered(yy as int, 662142, 400);
    }
    assert(era <= 1655);
    let mp: u64 = if m >= 3 {
        m - 3
    } else {
        m + 9
    };
    let doy: u64 = (153 * mp + 2) / 5 + d - 1;
    assert(doy <= 367);
    let doe: u64 = yoe * 365 + yoe / 4 + doy - yoe / 100;
    let days: i64 = (era * 146097 + doe) as i64 - 146816468;
    assert(-146816468 <= days <= 95353067);
    let tod: i64 = (h * 3600 + mi * 60 + s) as i64;
    let micros: i64 = days * 86400000000 + tod * 1000000 + frac as i64 - off_secs * 1000000;
    Timestamp { micros }
}

} // verus!
