use vstd::prelude::*;
use chrono::Datelike;

verus! {

/// The day number (days in the proleptic Gregorian calendar, January 1 of
/// year 1 being day 1) of chrono's earliest date, January 1 of year -262143.
pub const MIN_DAY_NUMBER: i32 = -95746129;

/// The day number of chrono's latest date, December 31 of year 262142.
pub const MAX_DAY_NUMBER: i32 = 95745399;

/// The day number of January 1, 1970.
pub const UNIX_EPOCH_DAY: i64 = 719163;

/// An instant as chrono reads a `SystemTime`: whole seconds since the Unix
/// epoch, rounded down, and the nanoseconds past them.
#[derive(Clone, Copy, Debug, PartialEq, Eq, Structural)]
pub struct Timestamp {
    pub secs: i64,
    pub nanos: u32,
}

/// The day number, in UTC, of the day on which `secs` falls.
pub open spec fn day_number_of_secs(secs: int) -> int {
    secs / 86400 + UNIX_EPOCH_DAY
}

/// The day number of `t`, in UTC.
pub open spec fn day_number(t: Timestamp) -> int {
    day_number_of_secs(t.secs as int)
}

/// chrono can hold `t` as a `DateTime<Utc>`.
pub open spec fn in_calendar_range(t: Timestamp) -> bool {
    &&& t.nanos < 1_000_000_000
    &&& MIN_DAY_NUMBER <= day_number(t) <= MAX_DAY_NUMBER
}

/// `chrono::DateTime::<Utc>::from_timestamp(secs, nanos)` and, where it gives
/// a date-time, that date's `Datelike::num_days_from_ce`. chrono computes the
/// day as `secs.div_euclid(86_400) + 719_163` and gives `None` only for a day
/// outside its calendar or for invalid nanoseconds.
#[verifier::external_body]
fn utc_day_number(secs: i64, nanos: u32) -> (r: Option<i32>)
    ensures
        r matches Some(d) ==> d == day_number_of_secs(secs as int),
        r matches Some(d) ==> MIN_DAY_NUMBER <= d <= MAX_DAY_NUMBER,
        nanos < 1_000_000_000 && MIN_DAY_NUMBER <= day_number_of_secs(secs as int) <= MAX_DAY_NUMBER
            ==> r is Some,
{
    match chrono::DateTime::<chrono::Utc>::from_timestamp(secs, nanos) {
        Some(date_time) => Some(date_time.num_days_from_ce()),
        None => None,
    }
}

#[verifier::external_type_specification]
#[verifier::external_body]
pub struct ExSystemTime(std::time::SystemTime);

/// `SystemTime::now()`: what the system clock reads. Nothing is stated of
/// it: it depends on the clock.
#[verifier::external_body]
fn clock_now() -> (now: std::time::SystemTime)
{
    std::time::SystemTime::now()
}

/// `t.duration_since(UNIX_EPOCH)`, the `Duration` taken apart into its whole
/// seconds (`as_secs`) and the nanoseconds past them (`subsec_nanos`, below
/// one second); `None` where `t` lies before the epoch. How these numbers
/// follow from `t` is not stated: a `SystemTime` is opaque here.
#[verifier::external_body]
fn since_unix_epoch(t: std::time::SystemTime) -> (r: Option<(u64, u32)>)
    ensures
        r matches Some(parts) ==> parts.1 < 1_000_000_000,
{
    match t.duration_since(std::time::UNIX_EPOCH) {
        Ok(elapsed) => Some((elapsed.as_secs(), elapsed.subsec_nanos())),
        Err(_) => None,
    }
}

/// The day number of `t` in UTC.
pub fn day_number_in_utc(t: Timestamp) -> (d: i32)
    requires
        in_calendar_range(t),
    ensures
        d == day_number(t),
{
    match utc_day_number(t.secs, t.nanos) {
        Some(d) => d,
        // chrono holds every timestamp in its calendar range
        None => 0,
    }
}

/// Today's day number in UTC, by the clock, as chrono's `Utc::now` gives
/// it; `None` where the clock reads before 1970 or beyond chrono's calendar
/// (where `Utc::now` panics).
pub fn today_in_utc() -> (r: Option<i32>)
    ensures
        r matches Some(d) ==> UNIX_EPOCH_DAY <= d <= MAX_DAY_NUMBER,
{
    match since_unix_epoch(clock_now()) {
        None => None,
        Some((secs, nanos)) => day_of_reading(secs, nanos),
    }
}

/// The day number, in UTC, of a clock reading of `secs` whole seconds (and
/// `nanos` nanoseconds) after the Unix epoch; `None` where chrono cannot hold
/// it (seconds beyond `i64`, or a day beyond chrono's calendar).
pub fn day_of_reading(secs: u64, nanos: u32) -> (r: Option<i32>)
    requires
        nanos < 1_000_000_000,
    ensures
        r == (if secs <= i64::MAX && day_number_of_secs(secs as int) <= MAX_DAY_NUMBER {
            Some(day_number_of_secs(secs as int) as i32)
        } else {
            None::<i32>
        }),
{
    if secs > i64::MAX as u64 {
        None
    } else {
        utc_day_number(secs as i64, nanos)
    }
}

/// Tells whether chrono can hold `t`.
pub fn is_in_calendar_range(t: Timestamp) -> (r: bool)
    ensures
        r == in_calendar_range(t),
{
    if t.nanos >= 1_000_000_000 {
        return false;
    }
    let days: i64 = t.secs / 86400;
    let rem: i64 = t.secs % 86400;
    let floor_days: i64 = if rem < 0 { days - 1 } else { days };
    assert(floor_days == t.secs as int / 86400) by {
        assert(t.secs == 86400 * days + rem);
    }
    let d: i64 = floor_days + UNIX_EPOCH_DAY;
    MIN_DAY_NUMBER as i64 <= d && d <= MAX_DAY_NUMBER as i64
}

} // verus!
