//! Exact ratios of machine integers.
//!
//! Fractional quantities (an average burn rate, an energy figure in
//! kilojoules) are represented as a numerator over a positive denominator,
//! so that every value the engine reports is exact rather than rounded.

use vstd::prelude::*;

verus! {

/// An exact non-negative rational number: `num / den` with `den > 0`.
#[derive(Clone, Copy, Debug)]
pub struct Ratio {
    pub num: u128,
    pub den: u128,
}

impl Ratio {
    /// The mathematical value of this ratio, as the pair of its parts.
    /// Two ratios stand for the same value exactly when `same_value` holds.
    pub open spec fn parts(self) -> (int, int) {
        (self.num as int, self.den as int)
    }

    pub open spec fn wf(self) -> bool {
        self.den > 0
    }

    /// `a` and `b` stand for the same rational value: `a.num / a.den == b.num / b.den`,
    /// stated by cross-multiplication.
    pub open spec fn same_value(a: Ratio, b: Ratio) -> bool {
        a.num * b.den == b.num * a.den
    }

    /// This ratio stands for the integer `n`.
    pub open spec fn is_integer(self, n: int) -> bool {
        self.num as int == n * self.den as int
    }

    pub fn new(num: u128, den: u128) -> (r: Ratio)
        requires
            den > 0,
        ensures
            r.wf(),
            r.parts() == (num as int, den as int),
    {
        Ratio { num, den }
    }

    pub fn numerator(&self) -> (r: u128)
        ensures
            r as int == self.parts().0,
    {
        self.num
    }

    pub fn denominator(&self) -> (r: u128)
        ensures
            r as int == self.parts().1,
    {
        self.den
    }

    /// The ratio `0 / 1`.
    pub fn zero() -> (r: Ratio)
        ensures
            r.wf(),
            r.is_integer(0),
            r.parts() == (0int, 1int),
    {
        Ratio { num: 0, den: 1 }
    }
}

} // verus!
