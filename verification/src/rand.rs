//! The pseudo-random generator behind the noise filter: a 128-bit
//! xorshift.

use vstd::prelude::*;

verus! {

/// The four words of the generator.
#[derive(Debug, Copy, Clone, PartialEq, Eq, Structural)]
pub struct RandState {
    pub x: u32,
    pub y: u32,
    pub z: u32,
    pub w: u32,
}

impl RandState {
    /// The state that a seed stands for: one byte of the seed in each word,
    /// and the lowest bit of the first word set so that the state is never
    /// all zero.
    pub open spec fn seeded(seed: u32) -> RandState {
        RandState {
            x: (seed & 0xff00_0000) | 1,
            y: seed & 0xff_0000,
            z: seed & 0xff00,
            w: seed & 0xff,
        }
    }

    /// The state after one number is drawn. The number drawn is the word
    /// `w` of this next state.
    pub open spec fn next(self) -> RandState {
        let t = self.x ^ (self.x << 11);
        RandState { x: self.y, y: self.z, z: self.w, w: self.w ^ (self.w >> 19) ^ t ^ (t >> 8) }
    }

    /// The state after `n` numbers are drawn.
    pub open spec fn after(self, n: nat) -> RandState
        decreases n,
    {
        if n == 0 {
            self
        } else {
            self.after((n - 1) as nat).next()
        }
    }

    /// The generator in the state that `seed` stands for.
    pub fn new(seed: u32) -> (s: RandState)
        ensures
            s == Self::seeded(seed),
    {
        RandState {
            x: (seed & 0xff00_0000) | 1,
            y: seed & 0xff_0000,
            z: seed & 0xff00,
            w: seed & 0xff,
        }
    }

    /// Draws the next number.
    pub fn rand(&mut self) -> (r: u32)
        ensures
            *final(self) == old(self).next(),
            r == final(self).w,
    {
        let t: u32 = self.x ^ (self.x << 11);
        self.x = self.y;
        self.y = self.z;
        self.z = self.w;
        self.w = self.w ^ (self.w >> 19) ^ t ^ (t >> 8);
        self.w
    }
}

} // verus!
