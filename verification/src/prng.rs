//! A 64-bit linear congruential generator.

use vstd::arithmetic::div_mod::lemma_add_mod_noop;
use vstd::arithmetic::div_mod::lemma_small_mod;
use vstd::prelude::*;

verus! {

/// Multiplier of the congruential step.
pub const LCG_MULTIPLIER: u64 = 6364136223846793005;

/// Increment of the congruential step.
pub const LCG_INCREMENT: u64 = 1442695040888963407;

/// The state that follows `s`: `s * LCG_MULTIPLIER + LCG_INCREMENT` modulo 2^64.
pub open spec fn lcg_step(s: u64) -> u64 {
    ((s as int * LCG_MULTIPLIER as int + LCG_INCREMENT as int) % 0x1_0000_0000_0000_0000) as u64
}

/// The state a generator starts from when seeded with `seed`: `seed + 1` modulo 2^64.
pub open spec fn seeded_state(seed: u64) -> u64 {
    if seed == u64::MAX {
        0
    } else {
        (seed + 1) as u64
    }
}

/// Deterministic pseudo-random generator; the whole state is one 64-bit word.
#[derive(Debug, Clone, Copy)]
pub struct PRNG {
    pub state: u64,
}

impl PRNG {
    pub fn new(seed: u64) -> (rng: Self)
        ensures
            rng.state == seeded_state(seed),
    {
        Self { state: seed.wrapping_add(1) }
    }

    /// Advances the state by one congruential step and returns the new state.
    pub fn next(&mut self) -> (value: u64)
        ensures
            value == lcg_step(old(self).state),
            final(self).state == value,
    {
        let ghost s = self.state as int;
        let product = self.state.wrapping_mul(LCG_MULTIPLIER);
        let value = product.wrapping_add(LCG_INCREMENT);
        proof {
            let m = 0x1_0000_0000_0000_0000int;
            let p = s * (LCG_MULTIPLIER as int);
            assert(0 <= p) by (nonlinear_arith)
                requires
                    0 <= s,
                    p == s * 6364136223846793005,
            ;
            assert(product as int == p % m);
            lemma_small_mod(LCG_INCREMENT as nat, m as nat);
            lemma_add_mod_noop(p, LCG_INCREMENT as int, m);
            assert(value as int == (product as int + LCG_INCREMENT as int) % m);
        }
        self.state = value;
        value
    }

    /// Draws a value below `max` by reducing the next state modulo `max`.
    pub fn next_range(&mut self, max: u32) -> (value: u32)
        requires
            max > 0,
        ensures
            value as int == lcg_step(old(self).state) as int % max as int,
            value < max,
            final(self).state == lcg_step(old(self).state),
    {
        let raw = self.next();
        (raw % (max as u64)) as u32
    }
}

} // verus!
