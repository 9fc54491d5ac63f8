//! The randomness boundary: a seeded pseudo-random generator from the
//! `rand` crate, behind two trusted wrappers. Everything derived from
//! its draws is verified for every possible draw.

use vstd::prelude::*;

verus! {

#[verifier::external_type_specification]
#[verifier::external_body]
pub struct ExStdRng(rand::rngs::StdRng);

/// Relies on rand::RngCore::next_u64 for one 64-bit draw; nothing is
/// assumed of the value.
#[verifier::external_body]
fn rng_next_u64(rng: &mut rand::rngs::StdRng) -> u64 {
    rand::RngCore::next_u64(rng)
}

/// A draw strictly below `bound`.
pub fn rng_below(rng: &mut rand::rngs::StdRng, bound: u64) -> (r: u64)
    requires
        bound > 0,
    ensures
        r < bound,
{
    rng_next_u64(rng) % bound
}

/// A draw in the symmetric interval `[-m, m]`.
pub fn rng_sym(rng: &mut rand::rngs::StdRng, m: i64) -> (r: i64)
    requires
        0 <= m <= 0x3fff_ffff_ffff_ffff,
    ensures
        -m <= r <= m,
{
    let width: u64 = 2 * (m as u64) + 1;
    let d = rng_below(rng, width);
    (d as i64) - m
}

} // verus!
