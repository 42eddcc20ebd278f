//! A small deterministic pseudo-random generator (SplitMix64).
use vstd::prelude::*;

verus! {

/// The increment of the generator's state at each draw.
pub const GOLDEN_GAMMA: u64 = 0x9E3779B97F4A7C15;

/// The output for generator state `s`.
pub open spec fn mix(s: u64) -> u64 {
    let z1 = (s ^ (s >> 30u64)).wrapping_mul(0xBF58476D1CE4E5B9);
    let z2 = (z1 ^ (z1 >> 27u64)).wrapping_mul(0x94D049BB133111EB);
    z2 ^ (z2 >> 31u64)
}

/// A seeded pseudo-random generator; equal seeds give equal sequences.
#[derive(Debug)]
pub struct StdRand {
    state: u64,
}

impl StdRand {
    pub closed spec fn spec_state(&self) -> u64 {
        self.state
    }

    /// A generator seeded with `seed`.
    pub fn with_seed(seed: u64) -> (r: Self)
        ensures
            r.spec_state() == seed,
    {
        StdRand { state: seed }
    }

    /// The generator's current state, from which it can be restored.
    pub fn state(&self) -> (r: u64)
        ensures
            r == self.spec_state(),
    {
        self.state
    }

    /// The next 64 random bits.
    pub fn next(&mut self) -> (r: u64)
        ensures
            final(self).spec_state() == old(self).spec_state().wrapping_add(GOLDEN_GAMMA),
            r == mix(final(self).spec_state()),
    {
        self.state = self.state.wrapping_add(GOLDEN_GAMMA);
        let mut z = self.state;
        z = (z ^ (z >> 30u64)).wrapping_mul(0xBF58476D1CE4E5B9);
        z = (z ^ (z >> 27u64)).wrapping_mul(0x94D049BB133111EB);
        z ^ (z >> 31u64)
    }

    /// A number in `[0, upper_bound)`.
    pub fn below(&mut self, upper_bound: u64) -> (r: u64)
        requires
            upper_bound > 0,
        ensures
            r < upper_bound,
            final(self).spec_state() == old(self).spec_state().wrapping_add(GOLDEN_GAMMA),
            r == mix(final(self).spec_state()) % upper_bound,
    {
        self.next() % upper_bound
    }
}

} // verus!
