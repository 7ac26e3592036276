//! A monotonic clock, counted in milliseconds from its own start. The cache
//! and the metrics timers read it; its readings are trusted, and nothing is
//! assumed of the values beyond their type.

use vstd::prelude::*;

verus! {

#[verifier::external_type_specification]
#[verifier::external_body]
pub struct ExInstant(std::time::Instant);

/// A monotonic clock counting milliseconds from its own start.
pub struct MonotonicClock {
    base: std::time::Instant,
}

impl Clone for MonotonicClock {
    #[verifier::external_body]
    fn clone(&self) -> Self {
        MonotonicClock { base: self.base }
    }
}

impl MonotonicClock {
    /// Relies on `std::time::Instant::now`: a reading of a monotonically
    /// nondecreasing clock.
    #[verifier::external_body]
    pub fn start() -> MonotonicClock {
        MonotonicClock { base: std::time::Instant::now() }
    }

    /// Relies on `std::time::Instant::elapsed`: the time since the clock
    /// started, converted to milliseconds. Nothing is assumed of the value.
    #[verifier::external_body]
    pub fn now_millis(&self) -> u64 {
        self.base.elapsed().as_millis() as u64
    }
}

} // verus!
