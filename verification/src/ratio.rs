//! Exact non-negative rational numbers.

use vstd::prelude::*;

verus! {

/// The rational number `num / den`. It is only meaningful when `den > 0`.
#[derive(Clone, Copy, Debug, PartialEq, Eq, Structural)]
pub struct Ratio {
    pub num: u128,
    pub den: u128,
}

impl Ratio {
    /// The denominator is not zero.
    pub open spec fn wf(self) -> bool {
        self.den > 0
    }

    /// `self` denotes a strictly larger rational number than `other`.
    pub open spec fn exceeds(self, other: Ratio) -> bool {
        self.num * other.den > other.num * self.den
    }

    /// The whole number `n`.
    pub open spec fn whole_spec(n: int) -> Ratio {
        Ratio { num: n as u128, den: 1 }
    }

    /// The whole number `n`, as `n / 1`.
    pub fn whole(n: usize) -> (r: Ratio)
        ensures
            r == Ratio::whole_spec(n as int),
            r.num == n,
            r.den == 1,
            r.wf(),
    {
        Ratio { num: n as u128, den: 1 }
    }

    /// Zero, as `0 / 1`.
    pub fn zero() -> (r: Ratio)
        ensures
            r == Ratio::whole_spec(0),
            r.wf(),
    {
        Ratio { num: 0, den: 1 }
    }
}

} // verus!
