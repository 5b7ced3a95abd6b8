//! The random sources of the simulation, drawn through `rand`.

use vstd::prelude::*;
use rand::{Rng, SeedableRng};
use rand::rngs::StdRng;

verus! {

/// The seedable generator of `rand`, carried through the simulation opaquely.
#[verifier::external_type_specification]
#[verifier::external_body]
pub struct ExStdRng(StdRng);

/// Relies on `rand::Rng::gen::<u8>`: draws one uniformly random byte.
#[verifier::external_body]
pub(crate) fn draw_byte(rng: &mut StdRng) -> u8 {
    rng.gen::<u8>()
}

/// Relies on `rand::Rng::gen_ratio(1, d)`: true with probability `1/d`; it
/// panics when `d` is zero and is always true when `d` is one.
#[verifier::external_body]
pub(crate) fn one_in(rng: &mut StdRng, denominator: u32) -> (r: bool)
    requires
        denominator > 0,
    ensures
        denominator == 1 ==> r,
{
    rng.gen_ratio(1, denominator)
}

/// Relies on `rand::Rng::gen_range(0, n)`: a uniform index below `n`; it
/// panics when `n` is zero.
#[verifier::external_body]
pub(crate) fn draw_index(rng: &mut StdRng, n: usize) -> (r: usize)
    requires
        n > 0,
    ensures
        r < n,
{
    rng.gen_range(0, n)
}

/// Relies on `rand::Rng::gen::<u64>`: draws one uniformly random `u64`.
#[verifier::external_body]
pub(crate) fn draw_u64(rng: &mut StdRng) -> u64 {
    rng.gen::<u64>()
}

/// Relies on `rand::SeedableRng::seed_from_u64`: a generator whose stream
/// is fixed by the seed.
#[verifier::external_body]
pub(crate) fn seeded(seed: u64) -> StdRng {
    StdRng::seed_from_u64(seed)
}

} // verus!
