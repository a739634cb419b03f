//! A small deterministic, seedable pseudo-random generator: the only source
//! of non-determinism in a distribution run, passed in explicitly so that
//! runs are reproducible under a fixed seed.

use vstd::prelude::*;

verus! {

/// Multiplier of the linear congruential step.
pub const RNG_MULTIPLIER: u64 = 6364136223846793005;

/// Increment of the linear congruential step.
pub const RNG_INCREMENT: u64 = 1442695040888963407;

/// The successor state: a linear congruential step modulo 2^64.
pub open spec fn rng_next_state(s: u64) -> u64 {
    (((s as int) * (RNG_MULTIPLIER as int) + (RNG_INCREMENT as int)) % 0x1_0000_0000_0000_0000)
        as u64
}

/// A seedable pseudo-random generator with a fully specified step, so that
/// every draw is a function of the seed alone.
pub struct SeededRng {
    pub state: u64,
}

impl SeededRng {
    /// A generator starting from the given seed.
    pub fn new(seed: u64) -> (r: SeededRng)
        ensures
            r.state == seed,
    {
        SeededRng { state: seed }
    }

    /// The next draw; advances the state by one congruential step and
    /// returns it.
    pub fn next(&mut self) -> (r: u64)
        ensures
            final(self).state == rng_next_state(old(self).state),
            r == rng_next_state(old(self).state),
    {
        proof {
            assert(self.state as int * (RNG_MULTIPLIER as int)
                <= 0xFFFF_FFFF_FFFF_FFFFint * (RNG_MULTIPLIER as int)) by (nonlinear_arith)
                requires
                    0 <= self.state as int <= 0xFFFF_FFFF_FFFF_FFFFint,
            ;
            assert(self.state as int * (RNG_MULTIPLIER as int) >= 0) by (nonlinear_arith)
                requires
                    0 <= self.state as int,
                    0 <= RNG_MULTIPLIER as int,
            ;
        }
        let wide: u128 = (self.state as u128) * (RNG_MULTIPLIER as u128)
            + (RNG_INCREMENT as u128);
        proof {
            vstd::arithmetic::div_mod::lemma_mod_bound(
                wide as int,
                0x1_0000_0000_0000_0000int,
            );
        }
        let next = (wide % 0x1_0000_0000_0000_0000u128) as u64;
        self.state = next;
        next
    }
}

} // verus!
