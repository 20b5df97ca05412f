//! The pseudo-random source used for weight initialization.
//!
//! The network takes an explicitly passed, seedable generator, `rand`'s
//! `StdRng`, so that callers control reproducibility. Nothing is assumed
//! about the values it produces: every contract downstream holds for every
//! sequence of draws.

use vstd::prelude::*;

verus! {

#[verifier::external_type_specification]
#[verifier::external_body]
pub struct ExStdRng(rand::rngs::StdRng);

/// Relies on `rand_core::Rng::next_u64` for `StdRng`, which is infallible.
/// The draw may be any `u64`, so nothing is stated of the result's value.
#[verifier::external_body]
pub(crate) fn next_u64(rng: &mut rand::rngs::StdRng) -> u64 {
    rand::Rng::next_u64(rng)
}

} // verus!
