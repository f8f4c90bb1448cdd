//! The animation clock: decides when the next count step is due.
//!
//! Timestamps are milliseconds on a monotonic caller-supplied clock.
//! All mutable timing state lives in the animation session; this module
//! is a pure time comparison.

use vstd::prelude::*;

verus! {

/// The fixed cadence of the counting animation, in milliseconds.
pub const STEP_INTERVAL_MS: u64 = 750;

/// A step is due once a full interval has elapsed since the last step.
pub open spec fn spec_step_due(last_step_time: u64, now: u64, interval: u64) -> bool {
    last_step_time + interval <= now
}

/// Decides whether the next count increment is due at time `now`,
/// given the time of the last increment (or of the session start).
/// A clock that jumped backwards (`now < last_step_time`) never has a
/// step due.
pub fn is_step_due(last_step_time: u64, now: u64, interval: u64) -> (due: bool)
    ensures
        due == spec_step_due(last_step_time, now, interval),
{
    now >= last_step_time && now - last_step_time >= interval
}

} // verus!
