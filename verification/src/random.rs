//! Seeded pseudo-random draws.

use vstd::prelude::*;
use rand::rngs::StdRng;
use rand::{Rng, SeedableRng};

verus! {

/// The first 64-bit number that a generator seeded with `seed` draws.
pub uninterp spec fn seeded_u64(seed: u64) -> u64;

/// Seeds a `rand::rngs::StdRng` with `SeedableRng::seed_from_u64` and draws
/// one `u64` with `Rng::random`. The generator is deterministic, so the
/// number depends on the seed alone; nothing else is claimed of it.
#[verifier::external_body]
pub(crate) fn draw_u64(seed: u64) -> (r: u64)
    ensures
        r == seeded_u64(seed),
{
    let mut rng = StdRng::seed_from_u64(seed);
    rng.random::<u64>()
}

/// The two numbers that a generator seeded with `seed` draws first, one
/// from `low_a` to `high_a` and then one from `low_b` to `high_b`, all ends
/// included.
pub uninterp spec fn seeded_pair(seed: u64, low_a: int, high_a: int, low_b: int, high_b: int) -> (int, int);

/// Seeds a `rand::rngs::StdRng` with `SeedableRng::seed_from_u64` and draws
/// two numbers with `Rng::random_range`, each over an inclusive range. The
/// generator is deterministic, so the pair depends on the arguments alone;
/// each number lies in its range. An empty range is excluded.
#[verifier::external_body]
pub(crate) fn draw_pair(seed: u64, low_a: i32, high_a: i32, low_b: i32, high_b: i32) -> (r: (i32, i32))
    requires
        low_a <= high_a,
        low_b <= high_b,
    ensures
        (r.0 as int, r.1 as int) == seeded_pair(
            seed,
            low_a as int,
            high_a as int,
            low_b as int,
            high_b as int,
        ),
        low_a <= r.0 <= high_a,
        low_b <= r.1 <= high_b,
{
    let mut rng = StdRng::seed_from_u64(seed);
    let a: i32 = rng.random_range(low_a..=high_a);
    let b: i32 = rng.random_range(low_b..=high_b);
    (a, b)
}

} // verus!
