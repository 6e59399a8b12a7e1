//! Randomness as an explicit capability.
//!
//! Random sampling takes its source as an explicit argument, never as
//! implicit global state.  A source's behaviour is fully determined by an
//! abstract state: what it draws and how the state advances are functions
//! of that state alone, which makes every sampling run reproducible.

use vstd::prelude::*;

verus! {

/// A deterministic source of draws.  The draw made at a state and the
/// state that follows are functions of the state alone, so two sources in
/// equal states behave identically.
pub trait RandomSource {
    /// The abstract state of the source.
    spec fn state(&self) -> nat;

    /// The value drawn at a given state.
    spec fn draw_at(s: nat) -> u32;

    /// The state left behind by a draw at a given state.
    spec fn step_at(s: nat) -> nat;

    /// Draws the next value, advancing the state.
    fn next_u32(&mut self) -> (r: u32)
        ensures
            r == Self::draw_at(old(self).state()),
            final(self).state() == Self::step_at(old(self).state()),
    ;
}

/// A small seedable linear-congruential generator: a deterministic
/// [`RandomSource`] whose state is its 32-bit seed.
#[derive(Debug)]
pub struct SimpleSeededRng {
    seed: u32,
}

impl SimpleSeededRng {
    /// Starts the generator from a seed; a zero seed is replaced by one.
    pub fn new(seed: u32) -> (r: Self)
        ensures
            r.state() == if seed == 0 {
                1nat
            } else {
                seed as nat
            },
    {
        SimpleSeededRng { seed: if seed == 0 { 1 } else { seed } }
    }
}

impl RandomSource for SimpleSeededRng {
    closed spec fn state(&self) -> nat {
        self.seed as nat
    }

    open spec fn draw_at(s: nat) -> u32 {
        ((s * 1103515245 + 12345) % 0x1_0000_0000) as u32
    }

    open spec fn step_at(s: nat) -> nat {
        Self::draw_at(s) as nat
    }

    fn next_u32(&mut self) -> (r: u32) {
        let next: u64 = (self.seed as u64 * 1103515245 + 12345) % 0x1_0000_0000;
        self.seed = next as u32;
        self.seed
    }
}

} // verus!
