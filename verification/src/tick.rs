//! Decisions of the tick driver.
//!
//! The control loop runs one iteration per wall-clock second, driven by an
//! absolute, clock-anchored timer. The platform layer arms the timer and
//! waits on it; the decisions — where the first expiry lies, and what each
//! outcome of arming or waiting means — are made here. A step of the system
//! clock makes a pending expiry fail with a canceled condition; that is the
//! one expected, retriable outcome, absorbed by re-arming. Every other
//! failure is fatal.

use vstd::prelude::*;

verus! {

/// The platform error number reporting a canceled operation.
pub const CANCELED_ERRNO: i32 = 125;

/// How the absolute tick timer is armed.
#[derive(Copy, Clone, PartialEq, Eq, Structural, Debug)]
pub struct TimerSchedule {
    /// Seconds of the first expiry, on the wall clock.
    pub first_secs: i64,
    /// Nanoseconds of the first expiry.
    pub first_nsecs: i64,
    /// Seconds between later expiries.
    pub interval_secs: i64,
    /// Nanoseconds between later expiries.
    pub interval_nsecs: i64,
}

/// The schedule that keeps ticks aligned to wall-clock seconds: the first
/// expiry at the current second with the nanoseconds cut off, and one
/// second between expiries. An absolute schedule holds the alignment under
/// scheduling jitter where a relative sleep would drift.
pub fn tick_schedule(now_secs: i64) -> (r: TimerSchedule)
    ensures
        r.first_secs == now_secs,
        r.first_nsecs == 0,
        r.interval_secs == 1,
        r.interval_nsecs == 0,
{
    TimerSchedule { first_secs: now_secs, first_nsecs: 0, interval_secs: 1, interval_nsecs: 0 }
}

/// What the driver does after trying to arm the timer.
#[derive(Copy, Clone, PartialEq, Eq, Structural, Debug)]
pub enum ArmStep {
    /// The timer is armed; go on.
    Armed,
    /// The clock stepped while arming; compute a fresh schedule and try
    /// again.
    Retry,
    /// Arming failed for good; the run is over.
    Fail {
        /// The platform error number.
        errno: i32,
    },
}

/// Decide the driver's next move from the outcome of arming the timer:
/// success arms it, a canceled condition is retried, anything else is
/// fatal.
pub fn arm_outcome(result: Result<(), i32>) -> (r: ArmStep)
    ensures
        r == match result {
            Result::Ok(()) => ArmStep::Armed,
            Result::Err(errno) => if errno == CANCELED_ERRNO {
                ArmStep::Retry
            } else {
                ArmStep::Fail { errno }
            },
        },
{
    match result {
        Result::Ok(()) => ArmStep::Armed,
        Result::Err(errno) => if errno == CANCELED_ERRNO {
            ArmStep::Retry
        } else {
            ArmStep::Fail { errno }
        },
    }
}

/// What the driver does after waiting for a tick.
#[derive(Copy, Clone, PartialEq, Eq, Structural, Debug)]
pub enum WaitStep {
    /// The tick arrived; dispatch the batch and render.
    Proceed,
    /// The clock stepped and canceled the pending expiry; re-arm and go on
    /// with the tick. Never surfaced as an error.
    Rearm,
    /// The wait failed for good; the run is over.
    Fail {
        /// The platform error number.
        errno: i32,
    },
}

/// Decide the driver's next move from the outcome of waiting on the timer:
/// an expiry proceeds, a canceled condition re-arms, anything else is
/// fatal.
pub fn wait_outcome(result: Result<u64, i32>) -> (r: WaitStep)
    ensures
        r == match result {
            Result::Ok(_) => WaitStep::Proceed,
            Result::Err(errno) => if errno == CANCELED_ERRNO {
                WaitStep::Rearm
            } else {
                WaitStep::Fail { errno }
            },
        },
{
    match result {
        Result::Ok(_) => WaitStep::Proceed,
        Result::Err(errno) => if errno == CANCELED_ERRNO {
            WaitStep::Rearm
        } else {
            WaitStep::Fail { errno }
        },
    }
}

} // verus!
