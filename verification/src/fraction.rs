//! Fractions of counts.

use vstd::prelude::*;

verus! {

/// The fraction `num / den`, not reduced.
#[derive(Clone, Copy, Debug, PartialEq, Eq, Structural)]
pub struct Fraction {
    /// The numerator.
    pub num: i128,
    /// The denominator, which is not zero.
    pub den: u128,
}

/// What a partial function on counts returns: the fraction `num / den` where
/// `when` holds, and `None` where it does not.
pub open spec fn fraction_of(r: Option<Fraction>, when: bool, num: int, den: int) -> bool {
    match r {
        Some(f) => when && f.num == num && f.den == den && den > 0,
        None => !when,
    }
}

} // verus!
