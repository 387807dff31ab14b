//! The random draws the simulation makes, each one call into `rand`.
use vstd::prelude::*;
use rand::rngs::SmallRng;
use rand::Rng;
use rand::SeedableRng;

use crate::world::geom::Vec2i;

verus! {

/// `rand`'s small fast generator, seeded by the simulation.
#[verifier::external_type_specification]
#[verifier::external_body]
pub struct ExSmallRng(rand::rngs::SmallRng);

/// `SmallRng::seed_from_u64`: a generator seeded from `seed` (its state is not modelled).
#[verifier::external_body]
pub fn seeded_rng(seed: u64) -> (r: SmallRng) {
    SmallRng::seed_from_u64(seed)
}

/// `Rng::gen_range` over the half-open `u8` range `lo..hi`: a value of that range.
#[verifier::external_body]
pub fn gen_range_u8(rng: &mut SmallRng, lo: u8, hi: u8) -> (r: u8)
    requires lo < hi,
    ensures lo <= r < hi,
{
    rng.gen_range(lo..hi)
}

/// `Rng::gen_range` over the half-open `usize` range `lo..hi`: a value of that range.
#[verifier::external_body]
pub fn gen_range_usize(rng: &mut SmallRng, lo: usize, hi: usize) -> (r: usize)
    requires lo < hi,
    ensures lo <= r < hi,
{
    rng.gen_range(lo..hi)
}

/// `Rng::gen_range` over the inclusive `u32` range `lo..=hi`: a value of that range.
#[verifier::external_body]
pub fn gen_range_incl_u32(rng: &mut SmallRng, lo: u32, hi: u32) -> (r: u32)
    requires lo <= hi,
    ensures lo <= r <= hi,
{
    rng.gen_range(lo..=hi)
}

/// `Rng::gen_ratio`: `true` with probability `num / den`; always `true` when `num == den` and
/// always `false` when `num == 0`, as `rand` documents.
#[verifier::external_body]
pub fn gen_ratio(rng: &mut SmallRng, num: u32, den: u32) -> (r: bool)
    requires 0 < den, num <= den,
    ensures
        num == den ==> r,
        num == 0 ==> !r,
{
    rng.gen_ratio(num, den)
}

/// Shuffles `targets` in place with `rand`'s `SliceRandom::shuffle` (a Fisher–Yates pass of swaps):
/// the result is a permutation of the input; which one depends on `rng`.
#[verifier::external_body]
pub fn shuffle_targets(targets: &mut Vec<Vec2i>, rng: &mut SmallRng)
    ensures
        final(targets)@.len() == old(targets)@.len(),
        final(targets)@.to_multiset() == old(targets)@.to_multiset(),
{
    rand::seq::SliceRandom::shuffle(targets.as_mut_slice(), rng);
}

} // verus!
