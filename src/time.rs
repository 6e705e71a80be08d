//! The wall clock, for the default timestamps of a transaction.

use std::time::{Duration, SystemTime};
use vstd::prelude::*;

verus! {

#[verifier::external_type_specification]
#[verifier::external_body]
pub struct ExSystemTime(std::time::SystemTime);

/// Relies on std::time::SystemTime::now: the time by the wall clock.
#[verifier::external_body]
fn clock_now() -> SystemTime {
    SystemTime::now()
}

/// Relies on SystemTime::duration_since with UNIX_EPOCH: the time elapsed
/// since the epoch, or nothing when `t` is before it.
#[verifier::external_body]
fn since_epoch(t: &SystemTime) -> Option<Duration> {
    t.duration_since(std::time::UNIX_EPOCH).ok()
}

/// Relies on Duration::as_secs: the whole seconds of a duration.
pub assume_specification[ Duration::as_secs ](d: &Duration) -> u64;

/// Relies on Duration::subsec_millis: the milliseconds of the second begun,
/// which the documentation bounds below one thousand.
pub assume_specification[ Duration::subsec_millis ](d: &Duration) -> (r: u32)
    ensures
        r < 1000,
;

/// Milliseconds from whole seconds and the milliseconds of the second begun,
/// capped at `i64::MAX`.
pub fn millis_from_parts(secs: u64, millis: u32) -> (r: i64)
    ensures
        r == (if secs * 1000 + millis <= i64::MAX { secs * 1000 + millis } else { i64::MAX as int }),
{
    if secs > (i64::MAX as u64) / 1000 {
        return i64::MAX;
    }
    let whole: u64 = secs * 1000;
    if whole + millis as u64 > i64::MAX as u64 {
        return i64::MAX;
    }
    (whole + millis as u64) as i64
}

/// The milliseconds since the Unix epoch by the wall clock; 0 when the clock
/// is set before the epoch.
pub fn get_unix_time_millis() -> (r: i64)
    ensures
        r >= 0,
{
    let now = clock_now();
    match since_epoch(&now) {
        Some(elapsed) => millis_from_parts(elapsed.as_secs(), elapsed.subsec_millis()),
        None => 0,
    }
}

} // verus!
