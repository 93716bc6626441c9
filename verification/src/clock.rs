//! Time as the core sees it.
//!
//! The control loop feeds every time-dependent decision an explicit [`Instant`]
//! so that the logic is a pure function of its inputs. An instant is a count
//! of milliseconds from an arbitrary fixed origin; durations are plain
//! millisecond counts.

use vstd::prelude::*;

verus! {

/// A point in time, in milliseconds from a fixed origin.
#[derive(Clone, Copy, PartialEq, Eq, Structural, Debug)]
pub struct Instant {
    millis: u64,
}

impl Instant {
    /// The instant `millis` milliseconds after the origin.
    pub fn from_millis(millis: u64) -> (r: Instant)
        ensures
            r.spec_millis() == millis,
    {
        Instant { millis }
    }

    /// The millisecond count of this instant.
    pub fn as_millis(self) -> (r: u64)
        ensures
            r == self.spec_millis(),
    {
        self.millis
    }

    /// Milliseconds from the origin, for specifications.
    pub closed spec fn spec_millis(self) -> int {
        self.millis as int
    }

    /// The time elapsed since `earlier`, zero if `earlier` is not in the past.
    pub fn duration_since(self, earlier: Instant) -> (r: u64)
        ensures
            r == spec_duration_since(self, earlier),
    {
        if self.millis >= earlier.millis {
            self.millis - earlier.millis
        } else {
            0
        }
    }

    /// The instant `millis` milliseconds later, saturating at the largest
    /// representable instant, for specifications.
    pub closed spec fn spec_saturating_add_millis(self, millis: u64) -> Instant {
        Instant {
            millis: if self.millis + millis <= u64::MAX {
                (self.millis + millis) as u64
            } else {
                u64::MAX
            },
        }
    }

    /// The instant `millis` milliseconds later, saturating at the largest
    /// representable instant.
    pub fn saturating_add_millis(self, millis: u64) -> (r: Instant)
        ensures
            r == self.spec_saturating_add_millis(millis),
            r.spec_millis() == if self.spec_millis() + millis <= u64::MAX {
                self.spec_millis() + millis
            } else {
                u64::MAX as int
            },
    {
        Instant { millis: self.millis.saturating_add(millis) }
    }
}

/// The time elapsed from `earlier` to `later`, zero if `earlier` is not in
/// the past.
pub open spec fn spec_duration_since(later: Instant, earlier: Instant) -> int {
    if later.spec_millis() >= earlier.spec_millis() {
        later.spec_millis() - earlier.spec_millis()
    } else {
        0
    }
}

} // verus!
