//! Seeded white noise from an integer hash.

use vstd::prelude::*;

verus! {

/// A white-noise source: unrelated values at neighbouring grid points.
#[derive(Clone, Copy, Debug)]
pub struct WhiteNoise {
    seed: u32,
}

/// One round of the mixer: fold the upper half into the lower and multiply.
pub open spec fn mix(x: u32) -> u32 {
    ((x >> 16) ^ x).wrapping_mul(0x45d9f3b)
}

/// The hash of `x`: two rounds of mixing and a final fold.
pub open spec fn hash_spec(x: u32) -> u32 {
    (mix(mix(x)) >> 16) ^ mix(mix(x))
}

/// Hashes an integer so that nearby inputs give unrelated outputs.
pub fn hash(x: u32) -> (h: u32)
    ensures
        h == hash_spec(x),
{
    let a: u32 = ((x >> 16) ^ x).wrapping_mul(0x45d9f3b);
    let b: u32 = ((a >> 16) ^ a).wrapping_mul(0x45d9f3b);
    (b >> 16) ^ b
}

/// The grid coordinate `v`, shifted by the largest 32-bit signed integer
/// and cut down to 32 bits.
pub open spec fn lattice_key(v: i64) -> u32 {
    ((v + 0x7fff_ffff) % 0x1_0000_0000) as u32
}

impl WhiteNoise {
    pub const DEFAULT_SEED: u32 = 1;

    pub fn new(seed: u32) -> (noise: WhiteNoise)
        ensures
            noise.spec_seed() == seed,
    {
        WhiteNoise { seed }
    }

    pub closed spec fn spec_seed(&self) -> u32 {
        self.seed
    }

    /// The same source with another seed.
    pub fn set_seed(self, seed: u32) -> (noise: WhiteNoise)
        ensures
            noise.spec_seed() == seed,
    {
        WhiteNoise { seed }
    }

    pub fn seed(&self) -> (seed: u32)
        ensures
            seed == self.spec_seed(),
    {
        self.seed
    }

    /// The raw noise word at a grid point: the product, cut to 32 bits, of
    /// the hash of the first coordinate, the seed, and the hash of the second.
    pub open spec fn bits(&self, x: i64, z: i64) -> u32 {
        hash_spec(lattice_key(x)).wrapping_mul(self.spec_seed()).wrapping_mul(
            hash_spec(lattice_key(z)),
        )
    }

    /// The raw noise word at a grid point. Mapping the word to a number
    /// between -1 and 1 is left to the caller.
    pub fn get_bits(&self, x: i64, z: i64) -> (word: u32)
        ensures
            word == self.bits(x, z),
    {
        let kx = Self::key(x);
        let kz = Self::key(z);
        hash(kx).wrapping_mul(self.seed).wrapping_mul(hash(kz))
    }

    fn key(v: i64) -> (k: u32)
        ensures
            k == lattice_key(v),
    {
        let shifted: i128 = v as i128 + 0x7fff_ffff;
        let low: i128 = shifted % 0x1_0000_0000;
        if low < 0 {
            (low + 0x1_0000_0000) as u32
        } else {
            low as u32
        }
    }
}

impl Default for WhiteNoise {
    fn default() -> (noise: WhiteNoise)
        ensures
            noise.spec_seed() == WhiteNoise::DEFAULT_SEED,
    {
        WhiteNoise::new(WhiteNoise::DEFAULT_SEED)
    }
}

} // verus!
