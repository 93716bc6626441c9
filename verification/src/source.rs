//! Sources for typed values.
//!
//! A source serves the most recent good value of some sampled quantity, or
//! nothing. The combinators here decide how updates are folded into the
//! served value and when the quantity is worth reading again: [`LowerRate`]
//! throttles reads, [`MovingAverage`] smooths them over a time span, and
//! [`Gated`] suspends reads while an outside condition is off.

use vstd::prelude::*;

use crate::clock::{spec_duration_since, Instant};
use crate::fixed::{spec_blend, Fixed};

verus! {

/// A source of values.
pub trait Source: Sized {
    /// Type of value this source provides.
    type Value;

    /// The value served, for specifications.
    spec fn spec_value(self) -> Option<Self::Value>;

    /// Retrieve the current value from this source.
    fn value(&self) -> (r: Option<Self::Value>)
        ensures
            r == self.spec_value(),
    ;
}

/// Something (usually a [`Source`]) that can be updated directly.
pub trait Updateable: Sized {
    /// Type with which this can be updated.
    type Value;

    /// Well-formedness that updating relies on and preserves.
    open spec fn spec_wf(self) -> bool {
        true
    }

    /// The state after recording `value` at `now`, for specifications.
    spec fn spec_updated(self, value: Self::Value, now: Instant) -> Self;

    /// The state after an invalid reading at `now`, for specifications.
    spec fn spec_invalidated(self, now: Instant) -> Self;

    /// Update with a new valid `value` observed at `now`.
    fn update(&mut self, value: Self::Value, now: Instant)
        requires
            old(self).spec_wf(),
        ensures
            *final(self) == (*old(self)).spec_updated(value, now),
            final(self).spec_wf(),
    ;

    /// Signal that the reading at `now` was invalid.
    fn update_invalid(&mut self, now: Instant)
        requires
            old(self).spec_wf(),
        ensures
            *final(self) == (*old(self)).spec_invalidated(now),
            final(self).spec_wf(),
    ;
}

/// Something (usually a [`Source`]) that requests some sort of processing.
pub trait WantsProcessing: Sized {
    /// What the want gate answers, for specifications.
    spec fn spec_wants(self, before: Instant) -> bool;

    /// Whether a fresh reading is wanted before the instant `before`.
    fn wants_processing(&self, before: Instant) -> (r: bool)
        ensures
            r == self.spec_wants(before),
    ;
}

impl<T: Copy> Source for Option<T> {
    type Value = T;

    open spec fn spec_value(self) -> Option<T> {
        self
    }

    fn value(&self) -> (r: Option<T>) {
        *self
    }
}

impl<T> Updateable for Option<T> {
    type Value = T;

    open spec fn spec_updated(self, value: T, now: Instant) -> Option<T> {
        Some(value)
    }

    open spec fn spec_invalidated(self, now: Instant) -> Option<T> {
        None
    }

    fn update(&mut self, value: T, now: Instant) {
        *self = Some(value);
    }

    fn update_invalid(&mut self, now: Instant) {
        *self = None;
    }
}

impl<T> WantsProcessing for Option<T> {
    open spec fn spec_wants(self, before: Instant) -> bool {
        true
    }

    fn wants_processing(&self, before: Instant) -> bool {
        true
    }
}

/// A [`Source`] that should be updated at a lower rate.
///
/// Every update is accepted and served, but a want is reported only once
/// `rate` milliseconds have passed since the last update.
pub struct LowerRate<T> {
    /// The last accepted value and when it arrived, if any.
    pub data: Option<(T, Instant)>,
    /// Minimum time between wanted updates, in milliseconds.
    pub rate: u64,
}

impl<T> LowerRate<T> {
    /// A source wanting updates only once in `rate` milliseconds, serving
    /// nothing yet.
    pub fn new(rate: u64) -> (r: LowerRate<T>)
        ensures
            r.data is None,
            r.rate == rate,
    {
        LowerRate { data: None, rate }
    }
}

impl<T: Copy> Source for LowerRate<T> {
    type Value = T;

    open spec fn spec_value(self) -> Option<T> {
        match self.data {
            Some(p) => Some(p.0),
            None => None,
        }
    }

    fn value(&self) -> (r: Option<T>) {
        match &self.data {
            Some(p) => Some(p.0),
            None => None,
        }
    }
}

impl<T> Updateable for LowerRate<T> {
    type Value = T;

    open spec fn spec_updated(self, value: T, now: Instant) -> LowerRate<T> {
        LowerRate { data: Some((value, now)), rate: self.rate }
    }

    open spec fn spec_invalidated(self, now: Instant) -> LowerRate<T> {
        LowerRate { data: None, rate: self.rate }
    }

    fn update(&mut self, value: T, now: Instant) {
        self.data = Some((value, now));
    }

    fn update_invalid(&mut self, now: Instant) {
        self.data = None;
    }
}

impl<T> WantsProcessing for LowerRate<T> {
    open spec fn spec_wants(self, before: Instant) -> bool {
        match self.data {
            Some(p) => spec_duration_since(before, p.1) >= self.rate,
            None => true,
        }
    }

    fn wants_processing(&self, before: Instant) -> (r: bool) {
        match &self.data {
            Some(p) => before.duration_since(p.1) >= self.rate,
            None => true,
        }
    }
}

/// An update is accepted only once the elapsed time is at least this share
/// of the averaging span: one fiftieth, that is two percent.
pub const MIN_UPDATE_DENOM: u64 = 50;

/// A moving average.
///
/// Serves an exponentially time-decayed average of the values it was updated
/// with over a configured span.
pub struct MovingAverage {
    /// The current average and when it was last moved, if any.
    pub current: Option<(Fixed, Instant)>,
    /// The averaging span, in milliseconds.
    pub span: u64,
}

impl MovingAverage {
    /// A moving average over `span` milliseconds, serving nothing yet.
    ///
    /// The span is bounded so that the blending arithmetic cannot overflow.
    pub fn new(span: u64) -> (r: MovingAverage)
        requires
            span <= u32::MAX,
        ensures
            r.current is None,
            r.span == span,
    {
        MovingAverage { current: None, span }
    }

    /// Well-formedness: the span is small enough for blending.
    pub open spec fn wf(self) -> bool {
        self.span <= u32::MAX
    }
}

impl Source for MovingAverage {
    type Value = Fixed;

    open spec fn spec_value(self) -> Option<Fixed> {
        match self.current {
            Some(p) => Some(p.0),
            None => None,
        }
    }

    fn value(&self) -> (r: Option<Fixed>) {
        match &self.current {
            Some(p) => Some(p.0),
            None => None,
        }
    }
}

impl Updateable for MovingAverage {
    type Value = Fixed;

    /// The span must be small enough for blending.
    open spec fn spec_wf(self) -> bool {
        self.wf()
    }

    /// A first value seeds the average; after a gap of a span or more the
    /// value replaces it; within the span the value is blended in by the
    /// elapsed share of the span, unless that share is below two percent,
    /// in which case the update is dropped.
    open spec fn spec_updated(self, value: Fixed, now: Instant) -> MovingAverage {
        match self.current {
            None => MovingAverage { current: Some((value, now)), span: self.span },
            Some((last, then)) => {
                let elapsed = spec_duration_since(now, then);
                if elapsed >= self.span {
                    MovingAverage { current: Some((value, now)), span: self.span }
                } else if elapsed * MIN_UPDATE_DENOM >= self.span {
                    MovingAverage {
                        current: Some(
                            (
                                Fixed {
                                    micros: spec_blend(
                                        value.spec_micros(),
                                        last.spec_micros(),
                                        elapsed,
                                        self.span as int,
                                    ) as i64,
                                },
                                now,
                            ),
                        ),
                        span: self.span,
                    }
                } else {
                    self
                }
            },
        }
    }

    /// A stale average — older than the span — is cleared; a fresh one is
    /// kept even though the latest reading was invalid.
    open spec fn spec_invalidated(self, now: Instant) -> MovingAverage {
        match self.current {
            Some((_, then)) => if spec_duration_since(now, then) > self.span {
                MovingAverage { current: None, span: self.span }
            } else {
                self
            },
            None => MovingAverage { current: None, span: self.span },
        }
    }

    fn update(&mut self, value: Fixed, now: Instant) {
        match &self.current {
            None => {
                self.current = Some((value, now));
            },
            Some(p) => {
                let (last, then) = *p;
                let elapsed = now.duration_since(then);
                if elapsed >= self.span {
                    // Just comparing times this way avoids blending shares
                    // above one if no valid update arrived for a while.
                    self.current = Some((value, now));
                } else if elapsed * MIN_UPDATE_DENOM >= self.span {
                    self.current = Some((Fixed::blend(value, last, elapsed, self.span), now));
                }
            },
        }
    }

    fn update_invalid(&mut self, now: Instant) {
        // A stale state is fine as long as it holds a value from within the
        // span averaged over.
        let clear = match &self.current {
            Some(p) => now.duration_since(p.1) > self.span,
            None => true,
        };
        if clear {
            self.current = None;
        }
    }
}

impl WantsProcessing for MovingAverage {
    /// Polling faster than the smallest accepted step cannot move the
    /// average, so a want is reported only once a fiftieth of the span has
    /// passed.
    open spec fn spec_wants(self, before: Instant) -> bool {
        match self.current {
            Some(p) => spec_duration_since(before, p.1) >= self.span / MIN_UPDATE_DENOM,
            None => true,
        }
    }

    fn wants_processing(&self, before: Instant) -> (r: bool) {
        match &self.current {
            Some(p) => before.duration_since(p.1) >= self.span / MIN_UPDATE_DENOM,
            None => true,
        }
    }
}

/// An entity that wants processing only while a condition holds.
///
/// The condition is supplied from outside and re-set by the control loop;
/// updates pass through unmodified.
pub struct Gated<S> {
    /// The wrapped entity.
    pub inner: S,
    /// The externally supplied condition.
    pub condition: bool,
}

impl<S> Gated<S> {
    /// Gate `source` behind `condition`.
    pub fn new(source: S, condition: bool) -> (r: Gated<S>)
        ensures
            r.inner == source,
            r.condition == condition,
    {
        Gated { inner: source, condition }
    }

    /// Re-supply the outside condition.
    pub fn set_condition(&mut self, condition: bool)
        ensures
            final(self).inner == old(self).inner,
            final(self).condition == condition,
    {
        self.condition = condition;
    }
}

impl<S: Source> Source for Gated<S> {
    type Value = S::Value;

    open spec fn spec_value(self) -> Option<S::Value> {
        self.inner.spec_value()
    }

    fn value(&self) -> (r: Option<S::Value>) {
        self.inner.value()
    }
}

impl<S: Updateable> Updateable for Gated<S> {
    type Value = S::Value;

    open spec fn spec_wf(self) -> bool {
        self.inner.spec_wf()
    }

    open spec fn spec_updated(self, value: S::Value, now: Instant) -> Gated<S> {
        Gated { inner: self.inner.spec_updated(value, now), condition: self.condition }
    }

    open spec fn spec_invalidated(self, now: Instant) -> Gated<S> {
        Gated { inner: self.inner.spec_invalidated(now), condition: self.condition }
    }

    fn update(&mut self, value: S::Value, now: Instant) {
        self.inner.update(value, now);
    }

    fn update_invalid(&mut self, now: Instant) {
        self.inner.update_invalid(now);
    }
}

impl<S: WantsProcessing> WantsProcessing for Gated<S> {
    open spec fn spec_wants(self, before: Instant) -> bool {
        self.condition && self.inner.spec_wants(before)
    }

    fn wants_processing(&self, before: Instant) -> (r: bool) {
        self.condition && self.inner.wants_processing(before)
    }
}

// What holds of the combinators, stated once and proved for every input.

/// An update arriving less than a fiftieth of the span after the last one
/// never changes the stored average.
pub proof fn lemma_average_early_update_ignored(a: MovingAverage, v: Fixed, now: Instant)
    requires
        a.current matches Some(p) && spec_duration_since(now, p.1) * MIN_UPDATE_DENOM < a.span,
    ensures
        a.spec_updated(v, now) == a,
{
}

/// After a gap of a whole span or more, an update replaces the average
/// outright instead of blending.
pub proof fn lemma_average_late_update_replaces(a: MovingAverage, v: Fixed, now: Instant)
    requires
        a.current matches Some(p) && spec_duration_since(now, p.1) >= a.span,
    ensures
        a.spec_updated(v, now).current == Some((v, now)),
        a.spec_updated(v, now).span == a.span,
{
}

/// An invalid reading keeps the average while it is no older than the span,
/// and clears it once it is older.
pub proof fn lemma_average_invalid(a: MovingAverage, now: Instant)
    requires
        a.current matches Some(p),
    ensures
        spec_duration_since(now, (a.current->Some_0).1) <= a.span ==> a.spec_invalidated(now)
            == a,
        spec_duration_since(now, (a.current->Some_0).1) > a.span ==> a.spec_invalidated(
            now,
        ).current is None,
{
}

/// The rate gate is closed strictly before one rate past the last update,
/// open at and after it, and open unconditionally while empty.
pub proof fn lemma_lower_rate_gate<T>(l: LowerRate<T>, before: Instant)
    requires
        l.data matches Some(p) ==> p.1.spec_millis() <= before.spec_millis(),
    ensures
        l.data is None ==> l.spec_wants(before),
        l.data matches Some(p) ==> (l.spec_wants(before) <==> before.spec_millis()
            >= p.1.spec_millis() + l.rate),
{
}

} // verus!
