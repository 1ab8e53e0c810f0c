//! Random draws.

use vstd::prelude::*;
use rand::Rng;

verus! {

/// The standard generator of `rand`, `rand::rngs::StdRng`, as a value that
/// is carried to the draws; nothing is known of what it holds.
#[verifier::external_type_specification]
#[verifier::external_body]
pub struct ExStdRng(rand::rngs::StdRng);

/// Draws an integer with `rand::Rng::random_range` on the inclusive range
/// `bajo..=alto`. The call is trusted to return a value inside the range it
/// was given; nothing is claimed about which one, nor about the generator
/// afterwards.
#[verifier::external_body]
pub(crate) fn sortear_entre(rng: &mut rand::rngs::StdRng, bajo: u64, alto: u64) -> (r: u64)
    requires
        bajo <= alto,
    ensures
        bajo <= r <= alto,
{
    rng.random_range(bajo..=alto)
}

} // verus!
