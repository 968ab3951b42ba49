//! Exact fractions.
use vstd::prelude::*;

verus! {

/// The number `numerator / denominator`; the denominator is positive.
#[derive(Debug, Clone, Copy, PartialEq, Eq, Structural)]
pub struct Ratio {
    pub numerator: i64,
    pub denominator: i64,
}

impl Ratio {
    /// The whole number `n`.
    pub open spec fn whole(n: i64) -> Ratio {
        Ratio { numerator: n, denominator: 1 }
    }
}

} // verus!
