//! Exact non-negative fractions, used for scores and ratios that the board
//! analysis reports.
use vstd::prelude::*;

verus! {

/// The fraction `num / den`; `den` is positive in every value this crate builds.
#[derive(PartialEq, Eq, Structural, Copy, Clone, Debug)]
pub struct Ratio {
    pub num: u64,
    pub den: u64,
}

impl Ratio {
    pub open spec fn wf(self) -> bool {
        self.den > 0
    }

    /// `self < p / 100`.
    pub open spec fn spec_below_percent(self, p: int) -> bool {
        100 * self.num < p * self.den
    }

    /// `self >= p / 100`.
    pub open spec fn spec_at_least_percent(self, p: int) -> bool {
        !self.spec_below_percent(p)
    }

    /// Whether the fraction is below `p` hundredths.
    pub fn below_percent(&self, p: u64) -> (r: bool)
        requires
            self.num <= u32::MAX,
            self.den <= u32::MAX,
            p <= 1000,
        ensures
            r == self.spec_below_percent(p as int),
    {
        proof {
            assert(p * self.den <= 1000 * (u32::MAX as int)) by (nonlinear_arith)
                requires
                    p <= 1000,
                    self.den <= u32::MAX,
            ;
        }
        100 * self.num < p * self.den
    }

    /// Whether the fraction is at least `p` hundredths.
    pub fn at_least_percent(&self, p: u64) -> (r: bool)
        requires
            self.num <= u32::MAX,
            self.den <= u32::MAX,
            p <= 1000,
        ensures
            r == self.spec_at_least_percent(p as int),
    {
        !self.below_percent(p)
    }
}

} // verus!
