//! The seeded deterministic generator that drives every randomized movement
//! choice.
//!
//! The generator's whole state is one integer, so a state snapshot can store
//! it and restore it exactly, and two instances seeded alike draw identical
//! sequences forever — the determinism the simulation contract promises.
//! The step function is the classic 32-bit xorshift.

use vstd::prelude::*;

verus! {

/// A deterministic pseudo-random generator with explicit, serializable state.
#[derive(Debug, Clone, PartialEq, Eq, Structural)]
pub struct Gen {
    /// The internal state; never zero.
    pub state: u32,
}

/// One xorshift step of the generator state, as a mathematical function.
pub open spec fn spec_next_state(s: u32) -> u32 {
    let a = (s ^ (s << 13u32)) as u32;
    let b = (a ^ (a >> 17u32)) as u32;
    (b ^ (b << 5u32)) as u32
}

/// The state a fresh generator adopts for a seed: the seed itself, or 1 where
/// the seed is zero (xorshift has no zero state).
pub open spec fn spec_seed_state(seed: u32) -> u32 {
    if seed == 0 {
        1u32
    } else {
        seed
    }
}

impl Gen {
    /// A generator seeded with `seed`.
    pub fn new(seed: u32) -> (g: Gen)
        ensures
            g.state == spec_seed_state(seed),
    {
        Gen { state: if seed == 0 { 1 } else { seed } }
    }

    /// Draw the next 32-bit value; the new state is the value drawn.
    pub fn next_u32(&mut self) -> (r: u32)
        ensures
            r == spec_next_state(old(self).state),
            final(self).state == spec_next_state(old(self).state),
    {
        let s = self.state;
        let a = s ^ (s << 13u32);
        let b = a ^ (a >> 17u32);
        let c = b ^ (b << 5u32);
        self.state = c;
        c
    }

    /// Draw a value uniformly below `n`.
    pub fn gen_range(&mut self, n: u32) -> (r: u32)
        requires
            n > 0,
        ensures
            r == spec_next_state(old(self).state) % n,
            r < n,
            final(self).state == spec_next_state(old(self).state),
    {
        let v = self.next_u32();
        v % n
    }
}

} // verus!
