//! Wall-clock time.
use vstd::prelude::*;
use std::time::{Duration, SystemTime, SystemTimeError};

verus! {

#[verifier::external_type_specification]
#[verifier::external_body]
pub struct ExSystemTime(SystemTime);

#[verifier::external_type_specification]
#[verifier::external_body]
pub struct ExSystemTimeError(SystemTimeError);

/// `SystemTime::now`: the current wall-clock time. It depends on the clock,
/// so nothing is promised of it.
#[verifier::external_body]
fn system_now() -> (t: SystemTime) {
    SystemTime::now()
}

/// `SystemTime::duration_since` from the Unix epoch: the time elapsed since
/// then, or an error for a time before it. Nothing is promised of either.
#[verifier::external_body]
fn since_unix_epoch(t: &SystemTime) -> (r: Result<Duration, SystemTimeError>) {
    t.duration_since(std::time::UNIX_EPOCH)
}

/// `Duration::as_millis`: the whole milliseconds of a duration. A duration
/// is opaque here, so nothing is promised of the number.
#[verifier::external_body]
fn whole_millis(d: &Duration) -> (ms: u128) {
    d.as_millis()
}

/// Milliseconds since the Unix epoch; 0 when the clock reads a time before
/// it. The value depends on the clock, so nothing more is promised of it.
pub(crate) fn unix_millis() -> (r: u128) {
    let now = system_now();
    match since_unix_epoch(&now) {
        Ok(d) => whole_millis(&d),
        Err(_) => 0,
    }
}

} // verus!
