//! The random source: a generator of the `rand` crate, made from a seed when
//! the synchroniser is built.

use vstd::prelude::*;
use crate::primitives::PeerId;

verus! {

#[verifier::external_type_specification]
#[verifier::external_body]
pub struct ExXorShiftRng(rand::XorShiftRng);

/// A seed that the generator accepts: not all four words are zero.
pub open spec fn valid_seed(seed: [u32; 4]) -> bool {
    seed@[0] != 0 || seed@[1] != 0 || seed@[2] != 0 || seed@[3] != 0
}

/// `SeedableRng::from_seed` for `XorShiftRng`, which panics on a seed of
/// zeros.
#[verifier::external_body]
fn raw_from_seed(seed: [u32; 4]) -> (r: rand::XorShiftRng)
    requires
        valid_seed(seed),
{
    rand::SeedableRng::from_seed(seed)
}

/// `Rng::shuffle`: the same items in some order.
#[verifier::external_body]
fn raw_shuffle(rng: &mut rand::XorShiftRng, items: &mut Vec<PeerId>)
    ensures
        final(items)@.to_multiset() == old(items)@.to_multiset(),
{
    rand::Rng::shuffle(rng, items.as_mut_slice());
}

/// `Rng::gen_range` from zero: some number below `bound`, which must not be
/// zero, else the crate panics.
#[verifier::external_body]
fn raw_below(rng: &mut rand::XorShiftRng, bound: usize) -> (r: usize)
    requires
        bound > 0,
    ensures
        r < bound,
{
    rand::Rng::gen_range(rng, 0, bound)
}

/// `Rng::next_u32`: some 32-bit number.
#[verifier::external_body]
fn raw_next_u32(rng: &mut rand::XorShiftRng) -> (r: u32)
{
    rand::Rng::next_u32(rng)
}

/// A source with a fixed seed: the same choices in every run.
pub fn new() -> (r: RandomSource) {
    let fixed: [u32; 4] = [0u32, 1u32, 2u32, 3u32];
    RandomSource::from_seed(fixed)
}

/// The source of the random choices that the synchroniser makes.
pub struct RandomSource {
    rng: rand::XorShiftRng,
}

impl RandomSource {
    /// A source seeded with `seed`; a seed of zeros is replaced by a fixed
    /// one that the generator accepts.
    pub fn from_seed(seed: [u32; 4]) -> (r: RandomSource) {
        if seed[0] != 0 || seed[1] != 0 || seed[2] != 0 || seed[3] != 0 {
            RandomSource { rng: raw_from_seed(seed) }
        } else {
            let fixed: [u32; 4] = [0u32, 1u32, 2u32, 3u32];
            RandomSource { rng: raw_from_seed(fixed) }
        }
    }

    /// Puts `items` in a random order.
    pub fn shuffle(&mut self, items: &mut Vec<PeerId>)
        ensures
            final(items)@.to_multiset() == old(items)@.to_multiset(),
    {
        raw_shuffle(&mut self.rng, items)
    }

    /// A random number below `bound`; `None` when `bound` is zero.
    pub fn below(&mut self, bound: usize) -> (r: Option<usize>)
        ensures
            bound == 0 <==> r is None,
            r matches Some(v) ==> v < bound,
    {
        if bound == 0 {
            None
        } else {
            Some(raw_below(&mut self.rng, bound))
        }
    }

    /// A random 32-bit number.
    pub fn next_u32(&mut self) -> (r: u32) {
        raw_next_u32(&mut self.rng)
    }
}

} // verus!
