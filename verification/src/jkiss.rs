//! Console-platform pseudo-random generator.
//!
//! A four-state combined generator: a linear-congruential term, an xorshift
//! term and a multiply-with-carry term, all in 32-bit wrapping arithmetic.
//! Every operation is specified bit-for-bit by the `spec_*` functions, so two
//! instances seeded alike provably produce identical draw sequences.

use vstd::prelude::*;

use crate::error::SearchError;
use crate::unit::UnitValue;

verus! {

pub struct Jkiss {
    pub x: u32,
    pub y: u32,
    pub z: u32,
    pub c: u32,
}

impl Jkiss {
    pub open spec fn spec_from_seed(seed: i32) -> Jkiss {
        Jkiss {
            x: 314527869u32.wrapping_mul(seed as u32).wrapping_add(1234567u32),
            y: 987654321u32,
            z: 43219876u32,
            c: 6543217u32,
        }
    }

    /// The state after one raw draw.
    pub open spec fn spec_step(s: Jkiss) -> Jkiss {
        let x = 314527869u32.wrapping_mul(s.x).wrapping_add(1234567u32);
        let y1 = s.y ^ (s.y << 5u32);
        let y2 = y1 ^ (y1 >> 7u32);
        let y = y2 ^ (y2 << 22u32);
        let t = 4294584393 * (s.z as int) + (s.c as int);
        Jkiss { x, y, z: ((t % 0x1_0000_0000) as u32), c: ((t / 0x1_0000_0000) as u32) }
    }

    /// One raw draw: the next state and the 32-bit output.
    pub open spec fn spec_gen(s: Jkiss) -> (Jkiss, u32) {
        let s2 = Self::spec_step(s);
        (s2, s2.x.wrapping_add(s2.y).wrapping_add(s2.z))
    }

    /// An integer draw from `[lo, hi)` with `lo < hi`: the range width is the
    /// wrapping difference, a width of one consumes no state, and wider
    /// ranges reduce one raw draw by modulo (no rejection sampling, matching
    /// the host runtime bit-for-bit).
    pub open spec fn spec_gen_range(s: Jkiss, lo: i32, hi: i32) -> (Jkiss, i32) {
        let diff = (hi as u32).wrapping_sub(lo as u32);
        if diff == 1u32 {
            (s, lo)
        } else {
            let (s2, g) = Self::spec_gen(s);
            (s2, lo.wrapping_add((g % diff) as i32))
        }
    }

    /// A unit-interval draw: two raw draws, each keeping its top 26 bits,
    /// combined as `(a * 2^27 + b) / 2^53`.  The value is exact, so it is
    /// carried as the numerator over the power-of-two denominator `2^53`.
    pub open spec fn spec_gen_float(s: Jkiss) -> (Jkiss, UnitValue) {
        let (s2, a) = Self::spec_gen(s);
        let (s3, b) = Self::spec_gen(s2);
        let num = ((a >> 6u32) as u64) * 134217728u64 + ((b >> 6u32) as u64);
        (s3, UnitValue { neg: false, num: num as u128, den: 53u32 })
    }

    pub fn from_seed(seed: i32) -> (r: Jkiss)
        ensures
            r == Self::spec_from_seed(seed),
    {
        Jkiss {
            x: 314527869u32.wrapping_mul(#[verifier::truncate] (seed as u32)).wrapping_add(
                1234567u32,
            ),
            y: 987654321u32,
            z: 43219876u32,
            c: 6543217u32,
        }
    }

    pub fn gen(&mut self) -> (r: u32)
        ensures
            (*final(self), r) == Self::spec_gen(*old(self)),
    {
        self.x = 314527869u32.wrapping_mul(self.x).wrapping_add(1234567u32);

        self.y = self.y ^ (self.y << 5u32);
        self.y = self.y ^ (self.y >> 7u32);
        self.y = self.y ^ (self.y << 22u32);

        assert(4294584393u64 * (self.z as u64) + (self.c as u64) < 0x1_0000_0000_0000_0000)
            by (nonlinear_arith)
            requires
                self.z <= 0xffff_ffffu32,
                self.c <= 0xffff_ffffu32,
        ;
        let t: u64 = 4294584393u64 * (self.z as u64) + (self.c as u64);
        self.z = (t % 0x1_0000_0000u64) as u32;
        self.c = (t / 0x1_0000_0000u64) as u32;

        self.x.wrapping_add(self.y).wrapping_add(self.z)
    }

    pub fn gen_range(&mut self, lo: i32, hi: i32) -> (r: Result<i32, SearchError>)
        ensures
            lo >= hi ==> r == Err::<i32, SearchError>(SearchError::EmptyRange) && *final(self) == *old(
                self,
            ),
            lo < hi ==> ({
                let (s2, v) = Self::spec_gen_range(*old(self), lo, hi);
                &&& r == Ok::<i32, SearchError>(v)
                &&& *final(self) == s2
            }),
    {
        if lo >= hi {
            return Err(SearchError::EmptyRange);
        }

        let diff: u32 = (#[verifier::truncate] (hi as u32)).wrapping_sub(
            #[verifier::truncate] (lo as u32),
        );
        assert(lo as u32 != hi as u32) by (bit_vector)
            requires
                lo < hi,
        ;
        if diff == 1u32 {
            Ok(lo)
        } else {
            let g: u32 = self.gen();
            Ok(lo.wrapping_add(#[verifier::truncate] ((g % diff) as i32)))
        }
    }

    /// A unit-interval draw, exact as a binary fraction with denominator
    /// `2^53`.
    #[verifier::rlimit(30)]
    pub fn gen_float(&mut self) -> (r: UnitValue)
        ensures
            (*final(self), r) == Self::spec_gen_float(*old(self)),
            r.wf(),
    {
        let ga: u32 = self.gen();
        let gb: u32 = self.gen();
        let a: u32 = ga >> 6u32;
        let b: u32 = gb >> 6u32;
        assert(a < 0x400_0000 && b < 0x400_0000) by (bit_vector)
            requires
                a == ga >> 6u32,
                b == gb >> 6u32,
        ;
        let num: u64 = (a as u64) * 134217728u64 + (b as u64);
        proof {
            vstd::arithmetic::power2::lemma2_to64();
            vstd::arithmetic::power2::lemma2_to64_rest();
            assert(num < 0x20_0000_0000_0000u64);
        }
        UnitValue { neg: false, num: num as u128, den: 53u32 }
    }
}

} // verus!
