//! The machine's clock, and the game's cycle of day and night.
//!
//! Reading the clock is not proved and promises nothing: two readings may
//! differ in any way. What is computed from a reading is verified for every
//! value that a reading can have.

use std::time::{Duration, Instant};
use vstd::prelude::*;

verus! {

/// `std::time::Instant`, a reading of the monotonic clock; nothing is known
/// of its inside.
#[verifier::external_type_specification]
#[verifier::external_body]
pub struct ExInstant(Instant);

/// `Instant::now`: the present reading of the clock. Nothing is promised of
/// it.
#[verifier::external_body]
pub(crate) fn instant_now() -> (now: Instant) {
    Instant::now()
}

/// `Instant::elapsed`: the time that has passed since a reading. Nothing is
/// promised of it.
#[verifier::external_body]
pub(crate) fn instant_elapsed(at: &Instant) -> (age: Duration) {
    at.elapsed()
}

/// `Duration`'s `>`: whether one span of time is longer than another.
/// Nothing is promised of it, as a span of time has no model here.
#[verifier::external_body]
pub(crate) fn duration_exceeds(age: &Duration, limit: &Duration) -> (longer: bool) {
    age.gt(limit)
}

/// Seconds in one cycle of day and night.
pub const CYCLE_SECONDS: u64 = 900;

/// Seconds of daylight in one cycle.
pub const DAY_SECONDS: u64 = 600;

/// The cycle of day and night, counted from the moment it was made.
pub struct TimeSystem {
    pub start_time: Instant,
    pub cycle_seconds: u64,
    pub day_seconds: u64,
}

impl TimeSystem {
    /// A cycle of fifteen minutes, ten of them daylight, that starts now.
    pub fn new() -> (t: Self)
        ensures
            t.cycle_seconds == 900,
            t.day_seconds == 600,
    {
        Self { start_time: instant_now(), cycle_seconds: CYCLE_SECONDS, day_seconds: DAY_SECONDS }
    }
}

} // verus!
