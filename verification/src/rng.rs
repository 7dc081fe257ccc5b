//! The injected randomness capability: a small xorshift generator.
//!
//! The engine takes one of these at its entry point, so exploration is
//! reproducible from the seed and the engine holds no hidden global
//! random state.  Every step is a pure integer function of the previous
//! state, pinned exactly by the contracts.

use vstd::prelude::*;

verus! {

/// The xorshift step: the next generator state after `s`.
pub open spec fn spec_next_state(s: u64) -> u64 {
    let a = s ^ (s << 13);
    let b = a ^ (a >> 7);
    b ^ (b << 17)
}

/// A deterministic pseudo-random source (xorshift with 64 bits of state).
#[derive(Clone, Copy, PartialEq, Eq, Structural, Debug)]
pub struct Rng {
    /// Current generator state; never 0, so the sequence never collapses.
    pub state: u64,
}

impl Rng {
    /// A generator seeded with `seed`; a zero seed is replaced by a fixed
    /// odd constant because 0 is a fixed point of the xorshift step.
    pub fn new(seed: u64) -> (r: Rng)
        ensures
            r.state == if seed == 0 {
                0x9E3779B97F4A7C15u64
            } else {
                seed
            },
    {
        if seed == 0 {
            Rng { state: 0x9E3779B97F4A7C15 }
        } else {
            Rng { state: seed }
        }
    }

    /// The next raw 64-bit value; advances the state by one xorshift step.
    pub fn next_u64(&mut self) -> (r: u64)
        ensures
            final(self).state == spec_next_state(old(self).state),
            r == final(self).state,
    {
        let s0 = self.state;
        let a = s0 ^ (s0 << 13);
        let b = a ^ (a >> 7);
        let c = b ^ (b << 17);
        self.state = c;
        c
    }

    /// A uniform index below `n`: the next raw value reduced modulo `n`.
    pub fn next_below(&mut self, n: usize) -> (r: usize)
        requires
            n > 0,
        ensures
            final(self).state == spec_next_state(old(self).state),
            r < n,
            r as u64 == spec_next_state(old(self).state) % (n as u64),
    {
        let x = self.next_u64();
        (x % (n as u64)) as usize
    }
}

} // verus!
