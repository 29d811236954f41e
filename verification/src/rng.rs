//! A 32-bit xorshift generator.

use vstd::prelude::*;

verus! {

/// The state that follows `s`: three shift-and-xor rounds on 32 bits.
pub open spec fn next_state(s: u32) -> u32 {
    let a = s ^ (s << 13u32);
    let b = a ^ (a >> 7u32);
    b ^ (b << 5u32)
}

/// A deterministic pseudo-random source. Its state is never handed out.
pub struct Rng {
    state: u32,
}

impl Rng {
    /// The current state.
    pub closed spec fn state(&self) -> u32 {
        self.state
    }

    /// A generator that starts at `seed`, which must not be zero: from zero the
    /// state would never move.
    pub fn new(seed: u32) -> (rng: Self)
        requires
            seed != 0,
        ensures
            rng.state() == seed,
    {
        Self { state: seed }
    }

    /// Advances the state and reduces it modulo `max`.
    pub fn range(&mut self, max: u32) -> (value: u32)
        requires
            max != 0,
        ensures
            final(self).state() == next_state(old(self).state()),
            value == next_state(old(self).state()) % max,
            value < max,
    {
        self.state = self.state ^ (self.state << 13u32);
        self.state = self.state ^ (self.state >> 7u32);
        self.state = self.state ^ (self.state << 5u32);
        self.state % max
    }
}

} // verus!
