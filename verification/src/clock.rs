//! The system clock.

use vstd::prelude::*;

verus! {

/// Milliseconds since the Unix epoch by the system clock
/// (`SystemTime::now`, `duration_since(UNIX_EPOCH)`); `None` when the clock
/// reads before the epoch. Nothing is promised of the value: it is the time.
#[verifier::external_body]
pub(crate) fn now_ms() -> (r: Option<u64>) {
    match std::time::SystemTime::now().duration_since(std::time::UNIX_EPOCH) {
        Ok(d) => Some(d.as_millis() as u64),
        Err(_) => None,
    }
}

/// Declares `std::time::Instant`, a reading of the monotonic clock, for use
/// as an opaque value.
#[verifier::external_type_specification]
#[verifier::external_body]
pub struct ExInstant(std::time::Instant);

/// A reading of the monotonic clock (`Instant::now`). Nothing is promised of
/// it: it is the time.
#[verifier::external_body]
pub(crate) fn instant_now() -> (r: std::time::Instant) {
    std::time::Instant::now()
}

/// Nanoseconds since `start` by the monotonic clock (`Instant::elapsed`,
/// `Duration::as_nanos`), `u64::MAX` past what a `u64` holds. Nothing is
/// promised of the value: it depends on when it is read.
#[verifier::external_body]
pub(crate) fn elapsed_ns(start: &std::time::Instant) -> (r: u64) {
    u64::try_from(start.elapsed().as_nanos()).unwrap_or(u64::MAX)
}

/// The clock's time, or zero when it reads before the epoch.
pub fn now_or_zero() -> (r: u64) {
    match now_ms() {
        Some(t) => t,
        None => 0,
    }
}

} // verus!
