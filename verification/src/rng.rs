//! Trusted boundary to `rltk`'s seeded pseudorandom number generator.
//! The generator state is opaque; every caller is verified for every
//! value these draws may return.

use vstd::prelude::*;

verus! {

#[verifier::external_type_specification]
#[verifier::external_body]
pub struct ExRandomNumberGenerator(rltk::RandomNumberGenerator);

/// Relies on rltk::RandomNumberGenerator::seeded: builds a generator
/// whose stream is determined by `seed`.
#[verifier::external_body]
pub(crate) fn rng_seeded(seed: u64) -> rltk::RandomNumberGenerator {
    rltk::RandomNumberGenerator::seeded(seed)
}

/// Relies on rltk::RandomNumberGenerator::range: returns a value that
/// is at least `lo` and strictly below `hi`; panics on an empty range,
/// which the precondition rules out.
#[verifier::external_body]
pub(crate) fn rng_range(rng: &mut rltk::RandomNumberGenerator, lo: i32, hi: i32) -> (r: i32)
    requires
        lo < hi,
    ensures
        lo <= r < hi,
{
    rng.range(lo, hi)
}

} // verus!
