//! A 64-bit xorshift register used to pick transforms.

use vstd::prelude::*;

verus! {

/// Register value that replaces a zero seed (a zero register never changes).
pub const FALLBACK_SEED: u64 = 0x9E37_79B9_7F4A_7C15;

/// One xorshift step: three shift-and-xor passes on the register.
pub open spec fn xorshift(x: u64) -> u64 {
    let a = x ^ (x << 13u64);
    let b = a ^ (a >> 7u64);
    b ^ (b << 17u64)
}

/// The register a generator starts from when seeded with `seed`.
pub open spec fn seeded(seed: u64) -> u64 {
    if seed == 0 {
        FALLBACK_SEED
    } else {
        seed
    }
}

/// The value in `[low, high]` that the raw word `x` stands for.
pub open spec fn in_range(x: u64, low: u64, high: u64) -> u64
    recommends
        low <= high,
{
    if high - low == u64::MAX {
        x
    } else {
        (low + x % ((high - low + 1) as u64)) as u64
    }
}

/// A zero-free register stays zero-free under one step.
pub proof fn lemma_xorshift_nonzero(x: u64)
    requires
        x != 0,
    ensures
        xorshift(x) != 0,
{
    let a = x ^ (x << 13u64);
    let b = a ^ (a >> 7u64);
    assert(x != 0 ==> x ^ (x << 13u64) != 0) by (bit_vector);
    assert(a != 0 ==> a ^ (a >> 7u64) != 0) by (bit_vector);
    assert(b != 0 ==> b ^ (b << 17u64) != 0) by (bit_vector);
}

/// Deterministic pseudo-random generator over a 64-bit register.
#[derive(Clone, Copy)]
pub struct LSFR64 {
    register: u64,
}

impl View for LSFR64 {
    type V = u64;

    closed spec fn view(&self) -> u64 {
        self.register
    }
}

impl LSFR64 {
    /// The register is never zero.
    pub open spec fn wf(&self) -> bool {
        self@ != 0
    }

    pub fn new(seed: u64) -> (r: LSFR64)
        ensures
            r@ == seeded(seed),
            r.wf(),
    {
        let register = if seed == 0 {
            FALLBACK_SEED
        } else {
            seed
        };
        LSFR64 { register }
    }

    /// Advances the register one step and returns its new value.
    pub fn next(&mut self) -> (r: u64)
        requires
            old(self).wf(),
        ensures
            final(self)@ == xorshift(old(self)@),
            r == final(self)@,
            final(self).wf(),
    {
        proof {
            lemma_xorshift_nonzero(self.register);
        }
        let x = self.register;
        let a = x ^ (x << 13u64);
        let b = a ^ (a >> 7u64);
        self.register = b ^ (b << 17u64);
        self.register
    }

    /// Draws a value in `[low, high]` from the next register value.
    pub fn gen_in_range(&mut self, low: u64, high: u64) -> (r: u64)
        requires
            old(self).wf(),
            low <= high,
        ensures
            final(self)@ == xorshift(old(self)@),
            r == in_range(final(self)@, low, high),
            low <= r <= high,
            final(self).wf(),
    {
        let x = self.next();
        let span = high - low;
        if span == u64::MAX {
            x
        } else {
            low + x % (span + 1)
        }
    }
}

} // verus!
