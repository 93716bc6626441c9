//! Automatic scaling of units.
//!
//! A scale is a series of unit prefixes (plain, kibi, mebi, ...), each a
//! fixed factor above the previous one. Scaling a value steps up the series
//! while the value stays above a requested minimum, dividing the value by
//! the factor at each step.

use vstd::prelude::*;

verus! {

/// A series of unit scales, such as binary prefixes.
///
/// Types implementing this are usually small enums encoding a prefix.
pub trait Scale: Sized + Copy {
    /// How many steps up the series remain, for specifications.
    spec fn spec_rank(self) -> nat;

    /// What [`Scale::step`] returns, for specifications.
    spec fn spec_step(self) -> Option<(Self, u16)>;

    /// Stepping moves up the series and the factor is at least one.
    proof fn lemma_step_sound(self)
        ensures
            self.spec_step() matches Some(p) ==> p.0.spec_rank() < self.spec_rank() && p.1
                >= 1,
    ;

    /// The next larger scale of this series with the conversion factor to
    /// it, or nothing if this is already the largest.
    fn step(self) -> (r: Option<(Self, u16)>)
        ensures
            r == self.spec_step(),
    ;

    /// The unit label shown after a value at this scale.
    fn label(&self) -> String;
}

/// The fixpoint of stepping `s` up while `v` stays above `factor · m`.
pub open spec fn spec_max_scale<S: Scale>(v: int, s: S, m: int) -> (int, S)
    decreases s.spec_rank(),
    via spec_max_scale_dec::<S>
{
    match s.spec_step() {
        None => (v, s),
        Some((ns, f)) => if v <= f * m {
            (v, s)
        } else {
            spec_max_scale(v / (f as int), ns, m)
        },
    }
}

#[via_fn]
proof fn spec_max_scale_dec<S: Scale>(v: int, s: S, m: int) {
    s.lemma_step_sound();
}

/// A value at some scale of a series.
#[derive(Copy, Clone)]
pub struct Scaled<V, S: Scale> {
    /// The value, in units of the scale.
    pub value: V,
    /// The scale the value is at.
    pub scale: S,
}

impl<V, S: Scale> Scaled<V, S> {
    /// The value `value` at scale `scale`.
    pub fn new(value: V, scale: S) -> (r: Scaled<V, S>)
        ensures
            r.value == value,
            r.scale == scale,
    {
        Scaled { value, scale }
    }
}

impl<S: Scale> Scaled<u64, S> {
    /// Scale up while keeping the value above `min_value`.
    pub fn max_scale(self, min_value: u64) -> (r: Scaled<u64, S>)
        ensures
            (r.value as int, r.scale) == spec_max_scale(
                self.value as int,
                self.scale,
                min_value as int,
            ),
    {
        let mut value = self.value;
        let mut scale = self.scale;
        let mut done = false;
        while !done
            invariant
                spec_max_scale(value as int, scale, min_value as int) == spec_max_scale(
                    self.value as int,
                    self.scale,
                    min_value as int,
                ),
                done ==> (value as int, scale) == spec_max_scale(
                    value as int,
                    scale,
                    min_value as int,
                ),
            decreases (if done {
                0int
            } else {
                1int
            }), scale.spec_rank(),
        {
            proof {
                scale.lemma_step_sound();
            }
            match scale.step() {
                None => {
                    done = true;
                },
                Some((new_scale, factor)) => {
                    let stop = match (factor as u64).checked_mul(min_value) {
                        Some(fm) => value <= fm,
                        // The product exceeds `u64::MAX`, so the value is
                        // certainly no larger.
                        None => true,
                    };
                    if stop {
                        done = true;
                    } else {
                        value = value / factor as u64;
                        scale = new_scale;
                    }
                },
            }
        }
        Scaled { value, scale }
    }

    /// Render the value with its unit label.
    ///
    /// Formatting is display-only; nothing further is stated of the text.
    pub fn render(&self) -> String {
        let mut out = self.value.to_string();
        out.append(self.scale.label().as_str());
        out
    }
}

/// Binary scale: powers of two-to-the-tenth.
#[derive(Copy, Clone, Debug, PartialEq, Eq, Structural)]
pub enum BinScale {
    /// No prefix.
    Ident,
    /// Kibi, two to the tenth.
    Kibi,
    /// Mebi, two to the twentieth.
    Mebi,
    /// Gibi, two to the thirtieth.
    Gibi,
    /// Tebi, two to the fortieth.
    Tebi,
}

impl Default for BinScale {
    fn default() -> (r: Self)
        ensures
            r == BinScale::Ident,
    {
        BinScale::Ident
    }
}

impl Scale for BinScale {
    open spec fn spec_rank(self) -> nat {
        match self {
            BinScale::Ident => 4,
            BinScale::Kibi => 3,
            BinScale::Mebi => 2,
            BinScale::Gibi => 1,
            BinScale::Tebi => 0,
        }
    }

    open spec fn spec_step(self) -> Option<(Self, u16)> {
        match self {
            BinScale::Ident => Some((BinScale::Kibi, 1024)),
            BinScale::Kibi => Some((BinScale::Mebi, 1024)),
            BinScale::Mebi => Some((BinScale::Gibi, 1024)),
            BinScale::Gibi => Some((BinScale::Tebi, 1024)),
            BinScale::Tebi => None,
        }
    }

    proof fn lemma_step_sound(self) {
    }

    fn step(self) -> (r: Option<(Self, u16)>) {
        match self {
            BinScale::Ident => Some((BinScale::Kibi, 1024)),
            BinScale::Kibi => Some((BinScale::Mebi, 1024)),
            BinScale::Mebi => Some((BinScale::Gibi, 1024)),
            BinScale::Gibi => Some((BinScale::Tebi, 1024)),
            BinScale::Tebi => None,
        }
    }

    fn label(&self) -> String {
        let s = match self {
            BinScale::Ident => "",
            BinScale::Kibi => "ki",
            BinScale::Mebi => "Mi",
            BinScale::Gibi => "Gi",
            BinScale::Tebi => "Ti",
        };
        s.to_owned()
    }
}

/// A scale whose conversion factor grows by one at each step, ending when
/// its counter is exhausted: the smallest series that exercises repeated
/// division and a series that runs out.
#[derive(Copy, Clone, PartialEq, Eq, Structural, Debug)]
pub struct DummyScale(pub u8);

impl Scale for DummyScale {
    open spec fn spec_rank(self) -> nat {
        (255 - self.0) as nat
    }

    open spec fn spec_step(self) -> Option<(Self, u16)> {
        if self.0 == 255 {
            None
        } else {
            Some((DummyScale((self.0 + 1) as u8), (self.0 + 1) as u16))
        }
    }

    proof fn lemma_step_sound(self) {
    }

    fn step(self) -> (r: Option<(Self, u16)>) {
        if self.0 == 255 {
            None
        } else {
            Some((DummyScale(self.0 + 1), (self.0 + 1) as u16))
        }
    }

    fn label(&self) -> String {
        let mut out = "_".to_owned();
        out.append(self.0.to_string().as_str());
        out
    }
}

/// Time scale: seconds up to days.
#[derive(Copy, Clone, Debug, PartialEq, Eq, Structural)]
pub enum Duration {
    /// Seconds.
    Second,
    /// Minutes, sixty seconds.
    Minute,
    /// Hours, sixty minutes.
    Hour,
    /// Days, twenty-four hours.
    Day,
}

impl Default for Duration {
    fn default() -> (r: Self)
        ensures
            r == Duration::Second,
    {
        Duration::Second
    }
}

impl Scale for Duration {
    open spec fn spec_rank(self) -> nat {
        match self {
            Duration::Second => 3,
            Duration::Minute => 2,
            Duration::Hour => 1,
            Duration::Day => 0,
        }
    }

    open spec fn spec_step(self) -> Option<(Self, u16)> {
        match self {
            Duration::Second => Some((Duration::Minute, 60)),
            Duration::Minute => Some((Duration::Hour, 60)),
            Duration::Hour => Some((Duration::Day, 24)),
            Duration::Day => None,
        }
    }

    proof fn lemma_step_sound(self) {
    }

    fn step(self) -> (r: Option<(Self, u16)>) {
        match self {
            Duration::Second => Some((Duration::Minute, 60)),
            Duration::Minute => Some((Duration::Hour, 60)),
            Duration::Hour => Some((Duration::Day, 24)),
            Duration::Day => None,
        }
    }

    fn label(&self) -> String {
        let s = match self {
            Duration::Second => "s",
            Duration::Minute => "min",
            Duration::Hour => "h",
            Duration::Day => "d",
        };
        s.to_owned()
    }
}

} // verus!
