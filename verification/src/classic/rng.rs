//! A deterministic xorshift64 random number generator.

use crate::board::PuyoColor;
use crate::classic::board::NUM_COLORS;
use crate::piece::Piece;
use vstd::prelude::*;

verus! {

/// One xorshift64 step (shifts 13, 7, 17).
pub open spec fn xorshift64(x: u64) -> u64 {
    let a = x ^ (x << 13u64);
    let b = a ^ (a >> 7u64);
    b ^ (b << 17u64)
}

/// A xorshift step never maps a non-zero state to zero: each of its three
/// steps can be undone.
pub proof fn lemma_xorshift_nonzero(x: u64)
    requires
        x != 0,
    ensures
        xorshift64(x) != 0,
{
    let a = x ^ (x << 13u64);
    let b = a ^ (a >> 7u64);
    let c = b ^ (b << 17u64);
    assert(x != 0 ==> x ^ (x << 13u64) != 0) by (bit_vector);
    assert(a != 0 ==> a ^ (a >> 7u64) != 0) by (bit_vector);
    assert(b != 0 ==> b ^ (b << 17u64) != 0) by (bit_vector);
}

/// The state that replaces 0 in `noise_step`.
pub const NOISE_RESEED: u64 = 0x5a17a453cc79b7d1;

/// One step of the search noise generator: `mix` times 2654435761 is added
/// to the state (wrapping), one xorshift step follows, and a result of 0 is
/// replaced by `NOISE_RESEED`.
pub open spec fn noise_step_spec(state: u64, mix: u64) -> u64 {
    let s = xorshift64(state.wrapping_add(mix.wrapping_mul(2654435761u64)));
    if s == 0 {
        NOISE_RESEED
    } else {
        s
    }
}

/// The next state of the search noise generator; never 0.  Its top 53 bits
/// are the draw.
pub fn noise_step(state: u64, mix: u64) -> (r: u64)
    ensures
        r == noise_step_spec(state, mix),
        r != 0,
{
    let mut s = state.wrapping_add(mix.wrapping_mul(2654435761));
    s ^= s << 13;
    s ^= s >> 7;
    s ^= s << 17;
    if s == 0 {
        s = NOISE_RESEED;
    }
    s
}

/// Deterministic xorshift64 random number generator.  Its state is never 0.
#[derive(Debug)]
pub struct Rng {
    state: u64,
}

impl Clone for Rng {
    fn clone(&self) -> (r: Self)
        ensures
            r@ == self@,
    {
        proof {
            use_type_invariant(self);
        }
        Rng { state: self.state }
    }
}

impl View for Rng {
    type V = u64;

    /// The generator's state.
    closed spec fn view(&self) -> u64 {
        self.state
    }
}

impl Rng {
    #[verifier::type_invariant]
    spec fn state_nonzero(self) -> bool {
        self.state != 0
    }

    /// A generator seeded with `seed`; the seed 0, which xorshift cannot
    /// leave, is replaced by 1.
    pub fn new(seed: u64) -> (r: Self)
        ensures
            r@ == (if seed == 0 {
                1u64
            } else {
                seed
            }),
    {
        Rng { state: if seed == 0 { 1 } else { seed } }
    }

    /// Advance the state by one xorshift step and return the new state, which
    /// is never 0.
    pub fn next_u64(&mut self) -> (v: u64)
        ensures
            v == xorshift64(old(self)@),
            final(self)@ == v,
            v != 0,
    {
        proof {
            use_type_invariant(&*self);
            lemma_xorshift_nonzero(self.state);
        }
        let mut x = self.state;
        x ^= x << 13;
        x ^= x >> 7;
        x ^= x << 17;
        assert(x == xorshift64(self.state));
        self.state = x;
        x
    }

    /// A number in `0..n`: the next value modulo `n`.
    pub fn next_range(&mut self, n: u32) -> (v: u32)
        requires
            n > 0,
        ensures
            v == xorshift64(old(self)@) % (n as u64),
            v < n,
            final(self)@ == xorshift64(old(self)@),
    {
        let x = self.next_u64();
        (x % (n as u64)) as u32
    }
}

/// The next piece of the seeded game: the axis colour is 1 plus the next
/// value modulo `NUM_COLORS`, then the satellite colour the same way.
pub fn generate_piece(rng: &mut Rng) -> (p: Piece)
    ensures
        final(rng)@ == xorshift64(xorshift64(old(rng)@)),
        p.axis_color.code() == xorshift64(old(rng)@) % (NUM_COLORS as u64) + 1,
        p.satellite_color.code() == xorshift64(xorshift64(old(rng)@)) % (NUM_COLORS as u64) + 1,
{
    let a = rng.next_range(NUM_COLORS as u32);
    let b = rng.next_range(NUM_COLORS as u32);
    Piece::new(PuyoColor::from_u8(a as u8 + 1), PuyoColor::from_u8(b as u8 + 1))
}

} // verus!
