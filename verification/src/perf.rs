//! A small generator of test bytes for timing runs: the same seed always
//! gives the same bytes.

use vstd::prelude::*;

verus! {

/// The state that follows `state`: a linear congruential step modulo 2^64.
pub open spec fn lcg_next(state: u64) -> u64 {
    ((state as int * 1664525 + 1013904223) % 0x1_0000_0000_0000_0000) as u64
}

/// The byte a state gives: bits 32 to 39.
pub open spec fn lcg_byte(state: u64) -> u8 {
    (state as int / 0x1_0000_0000 % 256) as u8
}

/// A linear congruential generator of bytes.
pub struct SimpleRng {
    pub state: u64,
}

impl SimpleRng {
    /// A generator that starts from `seed`.
    pub fn new(seed: u64) -> (rng: SimpleRng)
        ensures
            rng.state == seed,
    {
        SimpleRng { state: seed }
    }

    /// Steps the generator and gives the byte of its new state.
    pub fn next_u8(&mut self) -> (byte: u8)
        ensures
            final(self).state == lcg_next(old(self).state),
            byte == lcg_byte(final(self).state),
    {
        let state = self.state.wrapping_mul(1664525).wrapping_add(1013904223);
        self.state = state;
        let byte = ((state >> 32) & 0xff) as u8;
        assert(byte == state / 0x1_0000_0000 % 256) by (bit_vector)
            requires
                byte == ((state >> 32) & 0xff) as u8,
        ;
        byte
    }
}

} // verus!
