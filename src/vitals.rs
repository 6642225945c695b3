use vstd::prelude::*;

verus! {

/// One whole unit of a fixed-point quantity: values are held in thousandths.
pub const UNIT: i64 = 1000;

/// How much hunger grows on each step of the fixed-rate clock (0.003 of a unit).
pub const HUNGER_GROWTH_PER_STEP: i64 = 3;

/// The remaining value a freshly spawned prey carries (0.9 of a unit).
pub const PREY_DEFAULT_POINTS: i64 = 900;

/// Clamping of an integer into `[lo, hi]`.
pub open spec fn clamp_spec(v: int, lo: int, hi: int) -> int {
    if v < lo {
        lo
    } else if v > hi {
        hi
    } else {
        v
    }
}

/// A predator's hunger, in thousandths, always within `[0, UNIT]`.
#[derive(Clone, Copy, Debug)]
pub struct Hunger(i64);

impl Hunger {
    pub closed spec fn value(&self) -> int {
        self.0 as int
    }

    pub open spec fn wf(&self) -> bool {
        0 <= self.value() <= UNIT
    }

    /// A fully hungry predator.
    pub fn new() -> (r: Self)
        ensures
            r.wf(),
            r.value() == UNIT,
    {
        Hunger(UNIT)
    }

    pub fn get(&self) -> (r: i64)
        ensures
            r == self.value(),
    {
        self.0
    }

    /// Stores `value` clamped into `[0, UNIT]`.
    pub fn set(&mut self, value: i64)
        ensures
            final(self).value() == clamp_spec(value as int, 0, UNIT as int),
            final(self).wf(),
    {
        self.0 = if value < 0 {
            0
        } else if value > UNIT {
            UNIT
        } else {
            value
        };
    }
}

/// The remaining value of a prey, in thousandths.
#[derive(Clone, Copy, Debug)]
pub struct Prey {
    pub points: i64,
}

impl Default for Prey {
    fn default() -> (r: Self)
        ensures
            r.points == PREY_DEFAULT_POINTS,
    {
        Prey { points: PREY_DEFAULT_POINTS }
    }
}

impl Prey {
    /// A prey whose remaining value has dropped to or below zero is due for removal.
    pub open spec fn exhausted(&self) -> bool {
        self.points <= 0
    }
}

} // verus!
