//! The integer constants that the generic arithmetic of the `num` crate
//! provides.

use vstd::prelude::*;

verus! {

/// `num::Zero::zero` at `i32`.
///
/// Trusted: the crate implements it as the literal `0`, the additive
/// identity.
#[verifier::external_body]
pub(crate) fn zero() -> (z: i32)
    ensures
        z == 0,
{
    num::Zero::zero()
}

/// `num::One::one` at `i32`.
///
/// Trusted: the crate implements it as the literal `1`, the multiplicative
/// identity.
#[verifier::external_body]
pub(crate) fn one() -> (o: i32)
    ensures
        o == 1,
{
    num::One::one()
}

} // verus!
