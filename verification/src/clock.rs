//! The wall clock, read as Unix time.

use std::time::{Duration, SystemTime};
use vstd::prelude::*;

verus! {

/// A point in time as the system clock measures it.
#[verifier::external_type_specification]
#[verifier::external_body]
pub struct ExSystemTime(std::time::SystemTime);

/// `SystemTime::now` reads the system clock. Nothing is claimed of the
/// value: two readings may differ in any way.
pub assume_specification[ std::time::SystemTime::now ]() -> (t: std::time::SystemTime)
;

/// `Duration::as_secs` gives the whole seconds of a duration. Nothing is
/// claimed of the value, since a duration is not modelled.
pub assume_specification[ std::time::Duration::as_secs ](d: &std::time::Duration) -> (seconds: u64)
;

/// The time from the Unix epoch to `t`, by `SystemTime::duration_since`
/// with `SystemTime::UNIX_EPOCH`, or `None` where `t` lies before the
/// epoch. Nothing is claimed of the value.
#[verifier::external_body]
fn since_epoch(t: &SystemTime) -> (elapsed: Option<Duration>) {
    t.duration_since(SystemTime::UNIX_EPOCH).ok()
}

/// Unix time in whole seconds; a clock that stands before the epoch reads
/// as zero.
pub(crate) fn unix_now() -> (seconds: u64) {
    let t = SystemTime::now();
    let reading = match since_epoch(&t) {
        Some(elapsed) => Some(elapsed.as_secs()),
        None => None,
    };
    seconds_or_zero(reading)
}

/// What a reading of the clock counts as: its whole seconds since the Unix
/// epoch, or zero where the clock stood before the epoch and gave none.
pub fn seconds_or_zero(reading: Option<u64>) -> (seconds: u64)
    ensures
        seconds == match reading {
            Some(s) => s,
            None => 0,
        },
{
    match reading {
        Some(s) => s,
        None => 0,
    }
}

} // verus!
