//! The generator of random numbers.

use vstd::prelude::*;

verus! {

pub const GOLDEN_GAMMA: u64 = 0x9e37_79b9_7f4a_7c15;

/// A SplitMix64 generator. Its whole state is one number, so that a search can
/// stop and go on later as if it had not.
#[derive(Clone, Copy, Debug, PartialEq, Eq, Structural)]
pub struct SplitMix64 {
    pub state: u64,
}

/// The number that is drawn where the state has become `state`.
pub open spec fn mixed(state: u64) -> u64 {
    let first = (state ^ (state >> 30)).wrapping_mul(0xbf58_476d_1ce4_e5b9);
    let second = (first ^ (first >> 27)).wrapping_mul(0x94d0_49bb_1331_11eb);
    second ^ (second >> 31)
}

impl SplitMix64 {
    /// The generator after one draw.
    pub open spec fn advanced(self) -> SplitMix64 {
        SplitMix64 { state: self.state.wrapping_add(GOLDEN_GAMMA) }
    }

    /// The number of the next draw.
    pub open spec fn drawn(self) -> u64 {
        mixed(self.advanced().state)
    }

    pub fn new(seed: u64) -> (r: SplitMix64)
        ensures
            r.state == seed,
    {
        SplitMix64 { state: seed }
    }

    pub fn from_state(state: u64) -> (r: SplitMix64)
        ensures
            r.state == state,
    {
        SplitMix64 { state }
    }

    pub fn state(self) -> (r: u64)
        ensures
            r == self.state,
    {
        self.state
    }

    /// Draws a number.
    pub fn next_u64(&mut self) -> (r: u64)
        ensures
            r == old(self).drawn(),
            *final(self) == old(self).advanced(),
    {
        self.state = self.state.wrapping_add(GOLDEN_GAMMA);
        let mut value: u64 = self.state;
        value = (value ^ (value >> 30)).wrapping_mul(0xbf58_476d_1ce4_e5b9);
        value = (value ^ (value >> 27)).wrapping_mul(0x94d0_49bb_1331_11eb);
        value ^ (value >> 31)
    }
}

/// The numerator of a draw as a fraction of one: the upper 53 bits, to be taken in
/// units of 2^-53.
pub fn unit_numerator(drawn: u64) -> (r: u64)
    ensures
        r == drawn / 2048,
        r < 0x20_0000_0000_0000,
{
    assert(drawn >> 11 == drawn / 2048) by (bit_vector);
    drawn >> 11
}

/// A generator that is put together again from its state goes on as the first one
/// would have.
pub proof fn law_state_resumes_exactly(generator: SplitMix64)
    ensures
        ({
            let resumed = SplitMix64 { state: generator.state };
            &&& resumed.drawn() == generator.drawn()
            &&& resumed.advanced() == generator.advanced()
        }),
{
}

} // verus!
