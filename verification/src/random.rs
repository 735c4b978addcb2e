//! Seeded pseudo-random channel values, supplied by the `rand` crate.
//!
//! Clustering starts from uniformly random centroids drawn from a
//! generator seeded with a caller-supplied integer, so one seed always
//! reproduces one clustering outcome. Nothing is assumed about the
//! values a generator produces: every caller is verified for every
//! possible drawn value.

use vstd::prelude::*;
use rand::Rng;
use rand::SeedableRng;

verus! {

/// Declares rand's `StdRng` so it can appear in signatures. The
/// generator's state stays opaque to verification.
#[verifier::external_type_specification]
#[verifier::external_body]
pub struct ExStdRng(rand::rngs::StdRng);

/// Relies on rand's `StdRng::seed_from_u64`: builds a pseudo-random
/// generator from an explicit seed, and never panics. The generator's
/// state is opaque here; no contract is claimed of it.
#[verifier::external_body]
pub(crate) fn seed_rng(seed: u64) -> rand::rngs::StdRng {
    rand::rngs::StdRng::seed_from_u64(seed)
}

/// Relies on rand's `Rng::gen_range` on the full inclusive byte range
/// `0..=255`: returns one drawn byte and never panics (the range is not
/// empty). Any `u8` may come back, so nothing more is promised.
#[verifier::external_body]
pub(crate) fn gen_channel(rng: &mut rand::rngs::StdRng) -> u8 {
    rng.gen_range(0..=255u8)
}

} // verus!
