use vstd::prelude::*;

verus! {

/// The seed used in place of zero, which would keep the generator at zero forever.
pub const FALLBACK_SEED: u64 = 0xDEAD_BEEF_CAFE_BABE;

/// One xorshift64 step (shifts 13, 7, 17) on the 64-bit state.
pub open spec fn xorshift_step(x: u64) -> u64 {
    let a = x ^ (x << 13u64);
    let b = a ^ (a >> 7u64);
    b ^ (b << 17u64)
}

/// The state the generator starts from for a given seed.
pub open spec fn seeded_state(seed: u64) -> u64 {
    if seed == 0 { FALLBACK_SEED } else { seed }
}

/// A xorshift64 pseudo-random generator, used to draw channel noise.
pub struct XorShift64 {
    pub state: u64,
}

impl XorShift64 {
    /// The generator's well-formedness: its state is never zero.
    pub open spec fn wf(&self) -> bool {
        self.state != 0
    }

    /// Seeds the generator; a zero seed is replaced by a fixed non-zero one.
    pub fn new(seed: u64) -> (r: XorShift64)
        ensures
            r.state == seeded_state(seed),
            r.wf(),
    {
        let seed = if seed == 0 { FALLBACK_SEED } else { seed };
        XorShift64 { state: seed }
    }

    /// Advances the state by one xorshift step and returns the new state.
    pub fn next_u64(&mut self) -> (x: u64)
        ensures
            x == xorshift_step(old(self).state),
            ({
                let a = old(self).state ^ (old(self).state << 13u64);
                x == (a ^ (a >> 7u64)) ^ ((a ^ (a >> 7u64)) << 17u64)
            }),
            final(self).state == x,
            old(self).wf() ==> final(self).wf(),
    {
        let mut x = self.state;
        x ^= x << 13;
        x ^= x >> 7;
        x ^= x << 17;
        proof {
            lemma_step_keeps_nonzero(self.state);
        }
        self.state = x;
        x
    }
}

/// A xorshift step never sends a non-zero state to zero, so a seeded
/// generator never gets stuck at zero.
pub proof fn lemma_step_keeps_nonzero(x: u64)
    ensures
        x != 0 ==> xorshift_step(x) != 0,
{
    assert(x != 0 ==> (x ^ (x << 13u64)) != 0) by (bit_vector);
    let a = x ^ (x << 13u64);
    assert(a != 0 ==> (a ^ (a >> 7u64)) != 0) by (bit_vector);
    let b = a ^ (a >> 7u64);
    assert(b != 0 ==> (b ^ (b << 17u64)) != 0) by (bit_vector);
}

} // verus!
