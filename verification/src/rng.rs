//! Deterministic pseudo-random number stream used by map generation.
//!
//! Generation must be a pure function of its seed: the same seed and
//! parameters reproduce the same map. Every draw is therefore pinned exactly
//! by a spec function of the previous state, so that everything built on the
//! stream is itself a function of the seed.

use vstd::prelude::*;

verus! {

/// State seeded from a caller-supplied value. An xorshift step on a zero
/// state would stay zero forever, so the zero seed maps to a fixed
/// non-zero constant.
pub open spec fn spec_seed_state(seed: u64) -> u64 {
    if seed == 0 {
        0x9E3779B97F4A7C15u64
    } else {
        seed
    }
}

/// One xorshift step: the successor of a stream state.
pub open spec fn spec_next_state(s: u64) -> u64 {
    let a = s ^ (s << 13u64);
    let b = a ^ (a >> 7u64);
    b ^ (b << 17u64)
}

/// The value drawn into `[lo, hi]` from a raw stream value.
pub open spec fn spec_bounded(v: u64, lo: int, hi: int) -> int {
    lo + v as int % (hi - lo + 1)
}

/// A deterministic pseudo-random stream (64-bit xorshift).
pub struct Rng {
    pub state: u64,
}

impl Rng {
    pub fn seeded(seed: u64) -> (r: Rng)
        ensures
            r.state == spec_seed_state(seed),
    {
        if seed == 0 {
            Rng { state: 0x9E3779B97F4A7C15u64 }
        } else {
            Rng { state: seed }
        }
    }

    /// Advance the stream one step and return the new raw value.
    pub fn next_u64(&mut self) -> (r: u64)
        ensures
            final(self).state == spec_next_state(old(self).state),
            r == spec_next_state(old(self).state),
    {
        let mut s = self.state;
        s = s ^ (s << 13u64);
        s = s ^ (s >> 7u64);
        s = s ^ (s << 17u64);
        self.state = s;
        s
    }

    /// Draw a value uniformly-ish into the inclusive interval `[lo, hi]`,
    /// advancing the stream exactly one step.
    pub fn range_inclusive(&mut self, lo: i32, hi: i32) -> (r: i32)
        requires
            lo <= hi,
        ensures
            final(self).state == spec_next_state(old(self).state),
            r == spec_bounded(spec_next_state(old(self).state), lo as int, hi as int),
            lo <= r <= hi,
    {
        let v = self.next_u64();
        let span: u64 = ((hi as i64) - (lo as i64) + 1) as u64;
        let off: u64 = v % span;
        assert(off as int == v as int % (hi as int - lo as int + 1));
        assert(0 <= off as int <= hi as int - lo as int);
        ((lo as i64) + (off as i64)) as i32
    }
}

} // verus!
