use vstd::prelude::*;
use chrono::{Datelike, TimeZone};

verus! {

#[verifier::external_type_specification]
#[verifier::external_body]
pub struct ExSystemTime(std::time::SystemTime);

/// Relies on `std::time::SystemTime::now`: the system clock, of which
/// nothing is known.
pub assume_specification[ std::time::SystemTime::now ]() -> std::time::SystemTime;

/// Relies on `SystemTime::duration_since(UNIX_EPOCH)` and `Duration::as_secs`:
/// whether `t` is at or after the Unix epoch, and how many whole seconds it
/// lies from it (after it, or before it where the clock is set earlier).
#[verifier::external_body]
fn since_unix_epoch(t: &std::time::SystemTime) -> (r: (bool, u64)) {
    match t.duration_since(std::time::UNIX_EPOCH) {
        Ok(d) => (true, d.as_secs()),
        Err(e) => (false, e.duration().as_secs()),
    }
}

/// Seconds since the Unix epoch, negative before it, for `secs` seconds on
/// the side `after` of the epoch; beyond the range of `i64` it saturates.
pub fn epoch_seconds(after: bool, secs: u64) -> (r: i64)
    ensures
        after ==> r == (if secs > i64::MAX as u64 {
            i64::MAX as int
        } else {
            secs as int
        }),
        !after ==> r == (if secs > i64::MAX as u64 {
            -(i64::MAX as int)
        } else {
            -(secs as int)
        }),
{
    let s: i64 = if secs > i64::MAX as u64 {
        i64::MAX
    } else {
        secs as i64
    };
    if after {
        s
    } else {
        -s
    }
}

/// The current time in seconds since the Unix epoch, as the system clock
/// gives it; negative where the clock is set before 1970.
pub fn current_time() -> (r: i64) {
    let now = std::time::SystemTime::now();
    let (after, secs) = since_unix_epoch(&now);
    epoch_seconds(after, secs)
}

/// The largest distance from the Unix epoch, in seconds (some 250,000
/// years), for which calendar dates of instants are computed.
pub const MAX_CLOCK_EPOCH: i64 = 8_000_000_000_000;

/// The largest distance from year 0, in years, for which the instant of a
/// local midnight is computed.
pub const MAX_CLOCK_YEAR: i32 = 300_000;

/// Relies on chrono, in the machine's local time zone: the calendar date
/// (year, month, day) of the instant `epoch` (`DateTime::from_timestamp`,
/// `with_timezone(&Local)`, `date_naive` with `Datelike`, whose month lies
/// in 1..=12 and day in 1..=31), or `None` where
/// chrono has no such instant. `date_naive` panics only within a day of the
/// end of chrono's range, which the bound on `epoch` leaves out. The date
/// depends on the time zone: nothing is known of it.
#[verifier::external_body]
fn local_date_of(epoch: i64) -> (r: Option<(i32, u32, u32)>)
    requires
        -MAX_CLOCK_EPOCH <= epoch <= MAX_CLOCK_EPOCH,
    ensures
        r matches Some(d) ==> 1 <= d.1 <= 12 && 1 <= d.2 <= 31,
{
    match chrono::DateTime::from_timestamp(epoch, 0) {
        Some(t) => {
            let date = t.with_timezone(&chrono::Local).date_naive();
            Some((date.year(), date.month(), date.day()))
        },
        None => None,
    }
}

/// Relies on chrono, in the machine's local time zone: the instant, in
/// seconds since the Unix epoch, of 00:00:00 local time on the date
/// (`NaiveDate::from_ymd_opt`, `and_hms_opt(0, 0, 0)`,
/// `Local.from_local_datetime`, which checks its offset arithmetic, and
/// `single`), or `None` where the date is invalid or that local time does
/// not exist or is ambiguous. The value depends on the time zone: nothing is
/// known of it.
#[verifier::external_body]
fn local_midnight_of(year: i32, month: u32, day: u32) -> (r: Option<i64>)
    requires
        -MAX_CLOCK_YEAR <= year <= MAX_CLOCK_YEAR,
{
    let date = match chrono::NaiveDate::from_ymd_opt(year, month, day) {
        Some(d) => d,
        None => return None,
    };
    match date.and_hms_opt(0, 0, 0) {
        Some(midnight) => match chrono::Local.from_local_datetime(&midnight).single() {
            Some(t) => Some(t.timestamp()),
            None => None,
        },
        None => None,
    }
}

pub open spec fn is_leap_year(y: int) -> bool {
    y % 4 == 0 && (y % 100 != 0 || y % 400 == 0)
}

pub open spec fn days_in_month(y: int, m: int) -> int {
    if m == 2 {
        if is_leap_year(y) {
            29
        } else {
            28
        }
    } else if m == 4 || m == 6 || m == 9 || m == 11 {
        30
    } else {
        31
    }
}

/// The calendar date after (y, m, d) in the Gregorian calendar.
pub open spec fn next_date(y: int, m: int, d: int) -> (int, int, int) {
    if d < days_in_month(y, m) {
        (y, m, d + 1)
    } else if m < 12 {
        (y, m + 1, 1)
    } else {
        (y + 1, 1, 1)
    }
}

/// The calendar date after (year, month, day).
pub fn next_day(year: i32, month: u32, day: u32) -> (r: (i32, u32, u32))
    requires
        year < i32::MAX,
        month <= 12,
        day <= 31,
    ensures
        (r.0 as int, r.1 as int, r.2 as int) == next_date(year as int, month as int, day as int),
{
    let leap = year % 4 == 0 && (year % 100 != 0 || year % 400 == 0);
    let days: u32 = if month == 2 {
        if leap {
            29
        } else {
            28
        }
    } else if month == 4 || month == 6 || month == 9 || month == 11 {
        30
    } else {
        31
    };
    if day < days {
        (year, month, day + 1)
    } else if month < 12 {
        (year, month + 1, 1)
    } else {
        (year + 1, 1, 1)
    }
}

/// The date after (year, month, day), where the date is one of a month of
/// the year and the year lies in the range for which a local midnight is
/// computed.
pub fn date_after(year: i32, month: u32, day: u32) -> (r: Option<(i32, u32, u32)>)
    ensures
        (-MAX_CLOCK_YEAR <= year < MAX_CLOCK_YEAR && 1 <= month <= 12 && 1 <= day <= 31) ==> (r matches Some(
            n,
        ) && (n.0 as int, n.1 as int, n.2 as int) == next_date(year as int, month as int, day as int)),
        !(-MAX_CLOCK_YEAR <= year < MAX_CLOCK_YEAR && 1 <= month <= 12 && 1 <= day <= 31) ==> r is None,
        r matches Some(n) ==> -MAX_CLOCK_YEAR <= n.0 <= MAX_CLOCK_YEAR,
{
    if year < -MAX_CLOCK_YEAR || year >= MAX_CLOCK_YEAR || month < 1 || month > 12 || day < 1 || day
        > 31 {
        return None;
    }
    Some(next_day(year, month, day))
}

/// The local midnight that begins the calendar day after the instant
/// `epoch`: the date of `epoch` in the local time zone, the date after it
/// (`date_after`), and the instant of 00:00 local time on that date. `None`
/// where `epoch` or that date lies beyond the range computed, or where chrono
/// finds no such instant.
pub fn local_midnight_after(epoch: i64) -> (r: Option<i64>)
    ensures
        !(-MAX_CLOCK_EPOCH <= epoch <= MAX_CLOCK_EPOCH) ==> r is None,
{
    if epoch < -MAX_CLOCK_EPOCH || epoch > MAX_CLOCK_EPOCH {
        return None;
    }
    match local_date_of(epoch) {
        Some((year, month, day)) => match date_after(year, month, day) {
            Some((y, m, d)) => local_midnight_of(y, m, d),
            None => None,
        },
        None => None,
    }
}

} // verus!
