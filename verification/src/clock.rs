//! Trusted access to the process clocks.
//!
//! Internal timing (recovery windows, cooldowns) uses the monotonic clock:
//! each registry keeps the `Instant` at which it was created and measures
//! milliseconds elapsed since then.  Externalized timestamps (audit records,
//! reported health info) use wall-clock Unix seconds.  Nothing is promised
//! about either clock: every caller states what holds of its result for any
//! value that comes back.

use vstd::prelude::*;

verus! {

#[verifier::external_type_specification]
#[verifier::external_body]
pub struct ExInstant(std::time::Instant);

/// Relies on std::time::Instant::now, for a fixed point on the monotonic
/// clock from which later elapsed times are measured.
#[verifier::external_body]
pub fn instant_now() -> std::time::Instant {
    std::time::Instant::now()
}

/// Relies on std::time::Instant::elapsed, for the milliseconds of monotonic
/// time that have passed since `start`.
#[verifier::external_body]
pub fn elapsed_ms(start: &std::time::Instant) -> u64 {
    u64::try_from(start.elapsed().as_millis()).unwrap_or(u64::MAX)
}

/// Relies on std::time::SystemTime::now, for the wall-clock seconds since
/// the Unix epoch (0 if the system clock is set before the epoch).
#[verifier::external_body]
pub fn unix_now_secs() -> u64 {
    match std::time::SystemTime::now().duration_since(std::time::UNIX_EPOCH) {
        Ok(d) => d.as_secs(),
        Err(_) => 0,
    }
}

} // verus!
