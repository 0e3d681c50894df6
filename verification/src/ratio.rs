//! Exact rational values, used for the line parameters at an intersection.

use vstd::prelude::*;

verus! {

/// The exact rational `num / den`, with `den > 0` for every value the
/// library produces. Intersection parameters are returned in this form so
/// that the interval tests the winding algorithm needs (`t >= 0`,
/// `0 <= u <= 1`) are decided exactly, by integer comparisons alone.
#[derive(Clone, Copy, Debug, PartialEq, Eq, Structural)]
pub struct Ratio {
    pub num: i128,
    pub den: i128,
}

impl Ratio {
    /// The denominator is positive, so comparisons read off the numerator.
    pub open spec fn wf(self) -> bool {
        self.den > 0
    }

    /// The represented value is at least zero (for `den > 0`).
    pub open spec fn is_nonneg(self) -> bool {
        self.num >= 0
    }

    /// The represented value is at most one (for `den > 0`).
    pub open spec fn is_at_most_one(self) -> bool {
        self.num <= self.den
    }

    /// Whether the value is at least zero.
    pub fn nonneg(&self) -> (r: bool)
        ensures
            r == self.is_nonneg(),
    {
        self.num >= 0
    }

    /// Whether the value lies in the closed unit interval `[0, 1]`.
    pub fn in_unit_interval(&self) -> (r: bool)
        ensures
            r == (self.is_nonneg() && self.is_at_most_one()),
    {
        self.num >= 0 && self.num <= self.den
    }
}

} // verus!
