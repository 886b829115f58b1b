//! Randomness, taken on trust from the `rand` crate.

use vstd::prelude::*;

verus! {

/// Relies on rand::random: a uniformly random 16-bit value for order ids.
/// Nothing is promised of the value; callers collision-check it.
#[verifier::external_body]
pub(crate) fn random_u16() -> u16 {
    rand::random::<u16>()
}

/// Relies on rand::random: a uniformly random 64-bit value for fresh key
/// derivation indices. Nothing is promised of the value; callers check
/// freshness.
#[verifier::external_body]
pub(crate) fn random_u64() -> u64 {
    rand::random::<u64>()
}

} // verus!
