use vstd::prelude::*;

use std::time::{Duration, Instant};

verus! {

#[verifier::external_type_specification]
#[verifier::external_body]
pub struct ExInstant(Instant);

/// Relies on `Instant::now`: a reading of the monotonic clock. Nothing is
/// promised of its value.
pub assume_specification[ Instant::now ]() -> Instant;

/// Relies on `Instant::elapsed`: the time since the instant, saturating at
/// zero. It depends on the clock, so nothing is promised of its value.
pub assume_specification[ Instant::elapsed ](i: &Instant) -> Duration;

/// A wall-clock stopwatch.
#[derive(Debug)]
pub struct Timer(Instant);

impl Timer {
    /// Starts a stopwatch at the current instant.
    pub fn start() -> Timer {
        Timer(Instant::now())
    }

    /// Stops the stopwatch and returns the time since it started.
    pub fn stop(self) -> Duration {
        self.0.elapsed()
    }
}

} // verus!
