//! Pseudo-random number generator in the xoshiro256+ family.
//!
//! Every random choice of the renderer (sub-pixel jitter, lens samples,
//! scatter directions, shuffles of the noise tables) is drawn from this
//! generator, so its behaviour is pinned down exactly: the contracts give the
//! next state and the next output as functions of the current state alone.
//! Two generators built from the same seed therefore produce the same stream,
//! which is what makes a seeded render reproducible.

use vstd::prelude::*;

verus! {

/// Divisor applied to the seed word between the two mixing steps.
pub const SEED_STEP: u64 = 0x9E37_79B9_7F4A_7C15;

/// Generator state: four 64-bit words.
pub struct XorShift32 {
    pub s0: u64,
    pub s1: u64,
    pub s2: u64,
    pub s3: u64,
}

/// Output of one seed-mixing step on the word `v`.
pub open spec fn mix64(v: u64) -> u64 {
    let a = (v ^ (v >> 30u64)).wrapping_mul(0xBF58_476D_1CE4_E5B9);
    let b = (a ^ (a >> 27u64)).wrapping_mul(0x94D0_49BB_1331_11EB);
    b ^ (b >> 31u64)
}

/// `x` rotated left by `k` bits, for `0 < k < 64`.
pub open spec fn rol64(x: u64, k: u64) -> u64 {
    (x << k) | (x >> ((64 - k) as u64))
}

/// The state a generator holds right after being built from `seed`.
pub open spec fn seeded(seed: u64) -> XorShift32 {
    let first = mix64(seed);
    let second = mix64(seed / SEED_STEP);
    XorShift32 { s0: first, s1: first >> 32u64, s2: second, s3: second >> 32u64 }
}

/// The state transition performed by one draw.
pub open spec fn step(st: XorShift32) -> XorShift32 {
    let t = st.s1 << 17u64;
    let s2a = st.s2 ^ st.s0;
    let s3a = st.s3 ^ st.s1;
    XorShift32 {
        s0: st.s0 ^ s3a,
        s1: st.s1 ^ s2a,
        s2: s2a ^ t,
        s3: rol64(s3a, 45),
    }
}

/// The 61-bit output drawn from the state `st` before it advances.
pub open spec fn output(st: XorShift32) -> u64 {
    st.s0.wrapping_add(st.s3) >> 3u64
}

/// Relies on std::time::SystemTime::now (with duration_since and as_secs):
/// seconds of the system clock since the Unix epoch, used only to pick a seed
/// when the caller supplies none.  Nothing is assumed of the value.
#[verifier::external_body]
fn clock_seed() -> u64 {
    std::time::SystemTime::now()
        .duration_since(std::time::UNIX_EPOCH)
        .map(|d| d.as_secs())
        .unwrap_or(0)
}

impl XorShift32 {
    /// Builds a generator from `seed`, or from the clock when `seed` is
    /// `None`.  A supplied seed determines the whole state.
    pub fn new(seed: Option<u64>) -> (rng: XorShift32)
        ensures
            seed matches Some(s) ==> rng == seeded(s),
    {
        let mut word: u64 = match seed {
            Some(v) => v,
            None => clock_seed(),
        };
        let first = Self::split_mix_64(&mut word);
        let second = Self::split_mix_64(&mut word);
        XorShift32 { s0: first, s1: first >> 32, s2: second, s3: second >> 32 }
    }

    /// One step of the seed mixer: mixes the current word into an output and
    /// moves the word forward.
    pub fn split_mix_64(word: &mut u64) -> (r: u64)
        ensures
            r == mix64(*old(word)),
            *final(word) == *old(word) / SEED_STEP,
    {
        let v = *word;
        *word = v / SEED_STEP;
        let a = (v ^ (v >> 30)).wrapping_mul(0xBF58_476D_1CE4_E5B9);
        let b = (a ^ (a >> 27)).wrapping_mul(0x94D0_49BB_1331_11EB);
        b ^ (b >> 31)
    }

    /// `x` rotated left by `k` bits.
    pub fn rol_64(x: u64, k: u64) -> (r: u64)
        requires
            0 < k < 64,
        ensures
            r == rol64(x, k),
    {
        (x << k) | (x >> (64 - k))
    }

    /// Advances the generator one step and returns its 61-bit output, the
    /// integer the uniform sample in `[0, 1)` is derived from.
    pub fn next_bits(&mut self) -> (r: u64)
        ensures
            *final(self) == step(*old(self)),
            r == output(*old(self)),
            r < 0x2000_0000_0000_0000,
    {
        let result = self.s0.wrapping_add(self.s3);
        let t = self.s1 << 17;
        self.s2 = self.s2 ^ self.s0;
        self.s3 = self.s3 ^ self.s1;
        self.s1 = self.s1 ^ self.s2;
        self.s0 = self.s0 ^ self.s3;
        self.s2 = self.s2 ^ t;
        self.s3 = Self::rol_64(self.s3, 45);
        proof {
            assert(result >> 3u64 < 0x2000_0000_0000_0000) by (bit_vector);
        }
        result >> 3
    }
}

} // verus!
