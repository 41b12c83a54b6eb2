//! The time of day, and what is computed from it.

use std::time::SystemTime;
use vstd::prelude::*;

verus! {

/// `std::time::SystemTime`: a point in time.
#[verifier::external_type_specification]
#[verifier::external_body]
pub struct ExSystemTime(std::time::SystemTime);

/// The whole seconds and the further nanoseconds from the start of 1970 (UTC) to a point in
/// time, `None` where the point lies before.
pub uninterp spec fn clock_reading(t: SystemTime) -> Option<(u64, u32)>;

/// `SystemTime::now` is the current time. Nothing is said of which time that is.
pub assume_specification[ SystemTime::now ]() -> (r: SystemTime)
;

/// `SystemTime::duration_since` the start of 1970, in whole seconds and nanoseconds. The
/// nanoseconds are less than a second. An error tells that the time lies before 1970.
#[verifier::external_body]
pub(crate) fn since_epoch(t: SystemTime) -> (r: Option<(u64, u32)>)
    ensures
        r == clock_reading(t),
        match r {
            Some((_, nanos)) => nanos < 1_000_000_000,
            None => true,
        },
{
    match t.duration_since(SystemTime::UNIX_EPOCH) {
        Ok(d) => Some((d.as_secs(), d.subsec_nanos())),
        Err(_) => None,
    }
}

/// The number of the day since the start of 1970, in 32 bits; 0 before.
pub open spec fn day_of(reading: Option<(u64, u32)>) -> u32 {
    match reading {
        Some((secs, _)) => (secs / 86_400) as u32,
        None => 0,
    }
}

/// The milliseconds since the start of 1970, in 64 bits; 0 before.
pub open spec fn millis_of(reading: Option<(u64, u32)>) -> i64 {
    match reading {
        Some((secs, nanos)) => ((secs * 1000 + nanos / 1_000_000) % 0x1_0000_0000_0000_0000)
            as u64 as i64,
        None => 0,
    }
}

/// The nanoseconds within the second; 0 before 1970.
pub open spec fn nanos_of(reading: Option<(u64, u32)>) -> u64 {
    match reading {
        Some((_, nanos)) => nanos as u64,
        None => 0,
    }
}

/// The number of the day for a reading of the clock.
pub fn day_index(reading: Option<(u64, u32)>) -> (r: u32)
    ensures
        r == day_of(reading),
{
    match reading {
        Some((secs, _)) => (secs / 86_400) as u32,
        None => 0,
    }
}

/// The milliseconds for a reading of the clock.
pub fn unix_millis(reading: Option<(u64, u32)>) -> (r: i64)
    ensures
        r == millis_of(reading),
{
    match reading {
        Some((secs, nanos)) => {
            let ms: u64 = secs.wrapping_mul(1000).wrapping_add((nanos / 1_000_000) as u64);
            assert(ms == (secs * 1000 + nanos / 1_000_000) % 0x1_0000_0000_0000_0000);
            ms as i64
        },
        None => 0,
    }
}

/// The number of the current day (UTC) since the start of 1970.
pub fn utc_day_index() -> (r: u32)
    ensures
        exists|t: SystemTime| r == day_of(#[trigger] clock_reading(t)),
{
    let t = SystemTime::now();
    day_index(since_epoch(t))
}

/// The milliseconds from the start of 1970 to now.
pub fn now_millis() -> (r: i64)
    ensures
        exists|t: SystemTime| r == millis_of(#[trigger] clock_reading(t)),
{
    let t = SystemTime::now();
    unix_millis(since_epoch(t))
}

/// The nanoseconds within the current second; 0 before 1970.
pub fn now_nanos() -> (r: u64)
    ensures
        r < 1_000_000_000,
        exists|t: SystemTime| r == nanos_of(#[trigger] clock_reading(t)),
{
    let t = SystemTime::now();
    match since_epoch(t) {
        Some((_, nanos)) => nanos as u64,
        None => 0,
    }
}

/// The number of a day counts the days of 86400 seconds that have passed since the start of
/// 1970, as far as it fits into 32 bits.
pub proof fn law_days_are_counted(secs: u64, nanos: u32)
    requires
        secs < 0x1_0000_0000 * 86_400,
    ensures
        ({
            let day = day_of(Some((secs, nanos)));
            day * 86_400 <= secs < (day + 1) * 86_400
        }),
        day_of(None) == 0,
{
}

/// A day later the number of the day is one more, whatever the time of day.
pub proof fn law_next_day(secs: u64, nanos: u32, other: u32)
    requires
        secs + 86_400 < 0x1_0000_0000 * 86_400,
    ensures
        day_of(Some(((secs + 86_400) as u64, other))) == day_of(Some((secs, nanos))) + 1,
{
}

/// The milliseconds are those that have passed since the start of 1970, as far as they fit.
pub proof fn law_milliseconds_are_counted(secs: u64, nanos: u32)
    requires
        secs * 1000 + nanos < i64::MAX,
    ensures
        ({
            let ms = millis_of(Some((secs, nanos)));
            ms * 1_000_000 <= secs * 1_000_000_000 + nanos < (ms + 1) * 1_000_000
        }),
        millis_of(None) == 0,
{
}

/// A later reading of the clock never gives fewer milliseconds.
pub proof fn law_milliseconds_grow(secs: u64, nanos: u32, more: u64, later: u32)
    requires
        secs < more || secs == more && nanos <= later,
        nanos < 1_000_000_000,
        more * 1000 + later < i64::MAX,
    ensures
        millis_of(Some((secs, nanos))) <= millis_of(Some((more, later))),
{
}

/// The nanoseconds are those within the second.
pub proof fn law_nanoseconds_are_read(secs: u64, nanos: u32)
    ensures
        nanos_of(Some((secs, nanos))) == nanos,
        nanos_of(None) == 0,
{
}

} // verus!
