//! Mathematical constants of a scalar type.
use vstd::prelude::*;
use crate::float::Float;

verus! {

/// A scalar type that knows the constants the distributions are written with.
/// Nothing is claimed of the values: they are rounded as the type rounds them.
pub trait FloatConst: Float {
    /// The square root of two pi.
    fn two_pi_sqrt() -> Self;

    /// One over the square root of two pi.
    fn two_pi_sqrt_inv() -> Self;
}

} // verus!
