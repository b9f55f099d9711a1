//! Integer core of the variate generator.
//!
//! The uniform source is the xoshiro256++ generator seeded from a single
//! 64-bit value through splitmix64, exactly as the reference scheme of
//! Blackman and Vigna prescribes.  Every update and output is pinned
//! bit-for-bit by the contracts, so a seeded stream is reproducible by
//! construction.  The conversion of an output word to a uniform number in
//! `[0,1)` keeps its 53 most significant bits as the numerator over `2^53`;
//! the final floating division is left to the caller.

use vstd::prelude::*;

verus! {

/// Increment of the splitmix64 state (the golden-ratio constant).
pub const SM_GAMMA: u64 = 0x9e3779b97f4a7c15;

/// State of a xoshiro256++ generator: four 64-bit words.
#[derive(Clone, Copy, Debug, PartialEq, Eq, Structural)]
pub struct Xoshiro256PlusPlus {
    pub s0: u64,
    pub s1: u64,
    pub s2: u64,
    pub s3: u64,
}

/// 64-bit rotation left by `k`.
pub open spec fn rotl_v(x: u64, k: u64) -> u64
    recommends
        0 < k < 64,
{
    (x << k) | (x >> (64 - k) as u64)
}

/// The splitmix64 state advanced by one draw.
pub open spec fn sm_next_state(x: u64) -> u64 {
    x.wrapping_add(SM_GAMMA)
}

/// The splitmix64 output for an already advanced state.
pub open spec fn sm_mix(x: u64) -> u64 {
    let z1 = (x ^ (x >> 30)).wrapping_mul(0xbf58476d1ce4e5b9);
    let z2 = (z1 ^ (z1 >> 27)).wrapping_mul(0x94d049bb133111eb);
    z2 ^ (z2 >> 31)
}

/// Four successive splitmix64 outputs of a seeded stream, as generator state.
pub open spec fn sm_four(seed: u64) -> Xoshiro256PlusPlus {
    let x1 = sm_next_state(seed);
    let x2 = sm_next_state(x1);
    let x3 = sm_next_state(x2);
    let x4 = sm_next_state(x3);
    Xoshiro256PlusPlus { s0: sm_mix(x1), s1: sm_mix(x2), s2: sm_mix(x3), s3: sm_mix(x4) }
}

/// Generator state after seeding from a 64-bit value.  The all-zero state
/// is invalid for xoshiro256++, so in that (practically unreachable) case
/// the stream for seed zero is used instead, as the reference does.
pub open spec fn seeded_state(seed: u64) -> Xoshiro256PlusPlus {
    let c = sm_four(seed);
    if c.s0 == 0 && c.s1 == 0 && c.s2 == 0 && c.s3 == 0 {
        sm_four(0)
    } else {
        c
    }
}

/// One xoshiro256++ state transition.
pub open spec fn next_state(s: Xoshiro256PlusPlus) -> Xoshiro256PlusPlus {
    let t = s.s1 << 17;
    let s2a = s.s2 ^ s.s0;
    let s3a = s.s3 ^ s.s1;
    let s1a = s.s1 ^ s2a;
    let s0a = s.s0 ^ s3a;
    let s2b = s2a ^ t;
    let s3b = rotl_v(s3a, 45);
    Xoshiro256PlusPlus { s0: s0a, s1: s1a, s2: s2b, s3: s3b }
}

/// The xoshiro256++ output word for a state.
pub open spec fn output_of(s: Xoshiro256PlusPlus) -> u64 {
    rotl_v(s.s0.wrapping_add(s.s3), 23).wrapping_add(s.s0)
}

/// State after `n` transitions.
pub open spec fn state_after(s: Xoshiro256PlusPlus, n: nat) -> Xoshiro256PlusPlus
    decreases n,
{
    if n == 0 {
        s
    } else {
        next_state(state_after(s, (n - 1) as nat))
    }
}

/// The first `n` output words from a state.
pub open spec fn stream(s: Xoshiro256PlusPlus, n: nat) -> Seq<u64>
    decreases n,
{
    if n == 0 {
        Seq::empty()
    } else {
        stream(s, (n - 1) as nat).push(output_of(state_after(s, (n - 1) as nat)))
    }
}

/// 64-bit rotation left by `k`.
fn rotl(x: u64, k: u64) -> (r: u64)
    requires
        0 < k < 64,
    ensures
        r == rotl_v(x, k),
{
    (x << k) | (x >> (64 - k))
}

/// Splitmix64 output for an already advanced state.
fn sm_mix_exec(x: u64) -> (r: u64)
    ensures
        r == sm_mix(x),
{
    let z1: u64 = (x ^ (x >> 30)).wrapping_mul(0xbf58476d1ce4e5b9);
    let z2: u64 = (z1 ^ (z1 >> 27)).wrapping_mul(0x94d049bb133111eb);
    z2 ^ (z2 >> 31)
}

impl Xoshiro256PlusPlus {
    /// Seed the generator from a single 64-bit value via splitmix64.
    pub fn from_seed_u64(seed: u64) -> (r: Self)
        ensures
            r == seeded_state(seed),
    {
        let x1: u64 = seed.wrapping_add(SM_GAMMA);
        let x2: u64 = x1.wrapping_add(SM_GAMMA);
        let x3: u64 = x2.wrapping_add(SM_GAMMA);
        let x4: u64 = x3.wrapping_add(SM_GAMMA);
        let c = Xoshiro256PlusPlus {
            s0: sm_mix_exec(x1),
            s1: sm_mix_exec(x2),
            s2: sm_mix_exec(x3),
            s3: sm_mix_exec(x4),
        };
        if c.s0 == 0 && c.s1 == 0 && c.s2 == 0 && c.s3 == 0 {
            let y1: u64 = 0u64.wrapping_add(SM_GAMMA);
            let y2: u64 = y1.wrapping_add(SM_GAMMA);
            let y3: u64 = y2.wrapping_add(SM_GAMMA);
            let y4: u64 = y3.wrapping_add(SM_GAMMA);
            Xoshiro256PlusPlus {
                s0: sm_mix_exec(y1),
                s1: sm_mix_exec(y2),
                s2: sm_mix_exec(y3),
                s3: sm_mix_exec(y4),
            }
        } else {
            c
        }
    }

    /// Draw the next output word and advance the state.
    pub fn next_u64(&mut self) -> (r: u64)
        ensures
            *final(self) == next_state(*old(self)),
            r == output_of(*old(self)),
    {
        let result: u64 = rotl(self.s0.wrapping_add(self.s3), 23).wrapping_add(self.s0);
        let t: u64 = self.s1 << 17;
        self.s2 = self.s2 ^ self.s0;
        self.s3 = self.s3 ^ self.s1;
        self.s1 = self.s1 ^ self.s2;
        self.s0 = self.s0 ^ self.s3;
        self.s2 = self.s2 ^ t;
        self.s3 = rotl(self.s3, 45);
        result
    }

    /// Numerator of the next uniform draw in `[0,1)`: the top 53 bits of
    /// the next output word, to be divided by `2^53` by the caller.
    pub fn next_unit_numerator(&mut self) -> (r: u64)
        ensures
            *final(self) == next_state(*old(self)),
            r == output_of(*old(self)) >> 11,
            r < 0x20_0000_0000_0000,
    {
        let v: u64 = self.next_u64();
        let r: u64 = v >> 11;
        proof {
            assert(v >> 11 < 0x20_0000_0000_0000u64) by (bit_vector);
        }
        r
    }

    /// Draw a block of output words.
    pub fn next_block(&mut self, n: usize) -> (r: Vec<u64>)
        ensures
            r@ == stream(*old(self), n as nat),
            *final(self) == state_after(*old(self), n as nat),
    {
        let mut out: Vec<u64> = Vec::new();
        let mut i: usize = 0;
        while i < n
            invariant
                i <= n,
                out@ == stream(*old(self), i as nat),
                *self == state_after(*old(self), i as nat),
            decreases n - i,
        {
            let w: u64 = self.next_u64();
            out.push(w);
            i = i + 1;
        }
        out
    }
}

} // verus!
