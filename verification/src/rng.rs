//! Small deterministic xorshift64* generator used by the simulated-annealing
//! rescue of the oriented solver.
use vstd::prelude::*;

verus! {

/// Multiplier of the xorshift64* output scramble.
pub const SCRAMBLE: u64 = 0x2545_F491_4F6C_DD1Du64;

/// One xorshift64 state transition (shifts 12, 25, 27).
pub open spec fn xorshift_step(x: u64) -> u64 {
    let a = x ^ (x >> 12u64);
    let b = a ^ (a << 25u64);
    b ^ (b >> 27u64)
}

/// Generator state.
#[derive(Clone, Copy)]
pub struct TinyRng {
    pub state: u64,
}

impl TinyRng {
    /// Generator seeded with `seed`; the low bit is forced on so that the
    /// state is never zero.
    pub fn new(seed: u64) -> (r: Self)
        ensures
            r.state == seed | 1u64,
            r.state != 0,
    {
        proof {
            lemma_or_one_nonzero(seed);
        }
        TinyRng { state: seed | 1 }
    }

    /// Advances the state and returns the scrambled output.
    pub fn next_u64(&mut self) -> (out: u64)
        ensures
            final(self).state == xorshift_step(old(self).state),
            out == ((final(self).state as nat * SCRAMBLE as nat) % 0x1_0000_0000_0000_0000nat) as u64,
    {
        let mut x = self.state;
        x = x ^ (x >> 12);
        x = x ^ (x << 25);
        x = x ^ (x >> 27);
        self.state = x;
        x.wrapping_mul(SCRAMBLE)
    }
}

proof fn lemma_or_one_nonzero(x: u64)
    by (bit_vector)
    ensures
        (x | 1u64) != 0u64,
{
}

/// A non-zero state stays non-zero: each xorshift is invertible, so the
/// generator never falls into the all-zero fixed point.
pub proof fn lemma_step_keeps_nonzero(x: u64)
    requires
        x != 0,
    ensures
        xorshift_step(x) != 0,
{
    let a = x ^ (x >> 12u64);
    let b = a ^ (a << 25u64);
    assert(a != 0) by (bit_vector)
        requires
            x != 0u64,
            a == x ^ (x >> 12u64),
    ;
    assert(b != 0) by (bit_vector)
        requires
            a != 0u64,
            b == a ^ (a << 25u64),
    ;
    assert((b ^ (b >> 27u64)) != 0) by (bit_vector)
        requires
            b != 0u64,
    ;
}

} // verus!
