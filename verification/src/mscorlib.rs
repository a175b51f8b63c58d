//! Desktop-platform pseudo-random generator.
//!
//! A 55-element lagged-Fibonacci-style subtractive generator matching the
//! desktop runtime's standard library bit-for-bit: seeding derives a working
//! value from `161803398 - |seed|`, fills a 56-element state array through a
//! fixed permutation stride of 21 positions mod 55, and runs four mixing
//! passes with a `+= i32::MAX` correction whenever a term goes negative.
//! Every step is stated in the `spec_*` functions, so the draw sequence is
//! provably a function of the seed alone.

use vstd::arithmetic::mul::*;
use vstd::arithmetic::power2::*;
use vstd::prelude::*;

use crate::error::SearchError;
use crate::unit;
use crate::unit::UnitValue;

verus! {

/// The binary64 value `1.0 / (2^31 - 1)` is exactly `FLOAT_SCALE_NUM / 2^83`.
pub const FLOAT_SCALE_NUM: u128 = 4503599629467648;

pub struct MsCorLibRandom {
    pub seed: Vec<i32>,
    pub n: usize,
    pub np: usize,
}

/// The wraparound-safe correction used throughout seeding and drawing.
pub open spec fn spec_fixup(v: i32) -> i32 {
    if v < 0 {
        (v + 0x7fff_ffff) as i32
    } else {
        v
    }
}

pub open spec fn spec_subtraction(seed: i32) -> i32 {
    if seed == i32::MIN {
        i32::MAX
    } else if seed < 0 {
        (-(seed as int)) as i32
    } else {
        seed
    }
}

pub open spec fn spec_mj0(seed: i32) -> i32 {
    (161803398 - spec_subtraction(seed)) as i32
}

/// State of the fill loop after `i` of its 54 iterations: the array, `mj`
/// and `mk`.
pub open spec fn spec_fill(seed: i32, i: int) -> (Seq<i32>, i32, i32)
    decreases i,
{
    if i <= 0 {
        (
            Seq::new(56, |j: int| if j == 55 { spec_mj0(seed) } else { 0i32 }),
            spec_mj0(seed),
            1i32,
        )
    } else {
        let (arr, mj, mk) = spec_fill(seed, i - 1);
        let ii = (21 * i) % 55;
        (arr.update(ii, mk), mk, spec_fixup(mj.wrapping_sub(mk)))
    }
}

pub open spec fn spec_mix_step(arr: Seq<i32>, i: int) -> Seq<i32> {
    let j = 1 + (i + 30) % 55;
    arr.update(i, spec_fixup(arr[i].wrapping_sub(arr[j])))
}

/// One mixing pass after its first `i` iterations (`i` ranges over 1..=55).
pub open spec fn spec_mix_pass(arr: Seq<i32>, i: int) -> Seq<i32>
    decreases i,
{
    if i <= 0 {
        arr
    } else {
        spec_mix_step(spec_mix_pass(arr, i - 1), i)
    }
}

/// The array after `k` full mixing passes.
pub open spec fn spec_mix(arr: Seq<i32>, k: int) -> Seq<i32>
    decreases k,
{
    if k <= 0 {
        arr
    } else {
        spec_mix_pass(spec_mix(arr, k - 1), 55)
    }
}

/// The seeded state array: fill, then four mixing passes.
pub open spec fn spec_init_seed_array(seed: i32) -> Seq<i32> {
    spec_mix(spec_fill(seed, 54).0, 4)
}

/// A rotating cursor advances mod 55, wrapping to 1 rather than 0.
pub open spec fn spec_cursor(c: int) -> int {
    if c + 1 >= 56 {
        1
    } else {
        c + 1
    }
}

/// One raw draw: new array, new cursors, and the output
/// `fix(seed[n] - seed[np])`, stored back at `n`.
pub open spec fn spec_gen_st(st: (Seq<i32>, int, int)) -> ((Seq<i32>, int, int), i32) {
    let (arr, n, np) = st;
    let n1 = spec_cursor(n);
    let np1 = spec_cursor(np);
    let d = arr[n1].wrapping_sub(arr[np1]);
    let d1 = if d == i32::MAX {
        (d - 1) as i32
    } else {
        d
    };
    let d2 = spec_fixup(d1);
    ((arr.update(n1, d2), n1, np1), d2)
}

/// The binary64 value `g * (1.0 / (2^31 - 1))` as an exact dyadic fraction.
pub open spec fn spec_ms_unit(g: i32) -> UnitValue {
    if g < 0 {
        UnitValue { neg: true, num: FLOAT_SCALE_NUM, den: 83u32 }
    } else {
        UnitValue {
            neg: false,
            num: unit::spec_round53((g * FLOAT_SCALE_NUM) as nat) as u128,
            den: 83u32,
        }
    }
}

pub open spec fn spec_gen_float_st(st: (Seq<i32>, int, int)) -> ((Seq<i32>, int, int), UnitValue) {
    let (st2, g) = spec_gen_st(st);
    (st2, spec_ms_unit(g))
}

/// An integer draw from `[lo, hi)` with `lo < hi`: a width up to `i32::MAX`
/// scales one unit draw; a wider range combines two raw draws and a sign
/// correction over the full signed range.
pub open spec fn spec_gen_range_st(st: (Seq<i32>, int, int), lo: i32, hi: i32) -> (
    (Seq<i32>, int, int),
    i32,
) {
    let diff = (hi as u32).wrapping_sub(lo as u32);
    if diff <= 0x7fff_ffffu32 {
        let (st2, u) = spec_gen_float_st(st);
        let t = unit::spec_mul_trunc_mag(u, diff);
        let v = if u.neg {
            (-(t as int)) as i32
        } else {
            t as i32
        };
        (st2, lo.wrapping_add(v))
    } else {
        let (st2, s1) = spec_gen_st(st);
        let (st3, s2) = spec_gen_st(st2);
        let sample = if s2 % 2 == 0 {
            (-(s1 as int)) as i32
        } else {
            s1
        };
        let a = (sample + 2147483646) as nat;
        let u = unit::spec_fdiv53(a, 4294967293);
        let t = unit::spec_mul_trunc_mag(u, diff);
        (st3, lo.wrapping_add((t as u32) as i32))
    }
}

impl MsCorLibRandom {
    pub open spec fn wf(&self) -> bool {
        &&& self.seed@.len() == 56
        &&& self.n < 56
        &&& self.np < 56
    }

    pub open spec fn spec_state(&self) -> (Seq<i32>, int, int) {
        (self.seed@, self.n as int, self.np as int)
    }

    pub fn from_seed(seed: i32) -> (r: MsCorLibRandom)
        ensures
            r.wf(),
            r.seed@ == spec_init_seed_array(seed),
            r.n == 0,
            r.np == 21,
    {
        let subtraction: i32 = if seed == i32::MIN {
            i32::MAX
        } else if seed < 0 {
            -seed
        } else {
            seed
        };

        let mj0: i32 = 161803398 - subtraction;

        let mut arr: Vec<i32> = Vec::new();
        let mut z: usize = 0;
        while z < 56
            invariant
                z <= 56,
                arr@ == Seq::new(z as nat, |j: int| 0i32),
            decreases 56 - z,
        {
            arr.push(0);
            proof {
                assert(arr@ =~= Seq::new((z + 1) as nat, |j: int| 0i32));
            }
            z = z + 1;
        }
        arr[55] = mj0;
        proof {
            assert(arr@ =~= spec_fill(seed, 0).0);
        }

        let mut mj: i32 = mj0;
        let mut mk: i32 = 1;
        let mut i: usize = 1;
        while i < 55
            invariant
                1 <= i <= 55,
                arr@ == spec_fill(seed, i - 1).0,
                mj == spec_fill(seed, i - 1).1,
                mk == spec_fill(seed, i - 1).2,
                arr@.len() == 56,
            decreases 55 - i,
        {
            let ii: usize = (21 * i) % 55;
            let t: i32 = mk;
            arr[ii] = t;
            let mut mk2: i32 = mj.wrapping_sub(t);
            if mk2 < 0 {
                mk2 = mk2 + 0x7fff_ffff;
            }
            mk = mk2;
            mj = t;
            i = i + 1;
        }

        let mut k: usize = 1;
        while k < 5
            invariant
                1 <= k <= 5,
                arr@ == spec_mix(spec_fill(seed, 54).0, k - 1),
                arr@.len() == 56,
            decreases 5 - k,
        {
            let mut i2: usize = 1;
            while i2 < 56
                invariant
                    1 <= i2 <= 56,
                    arr@ == spec_mix_pass(spec_mix(spec_fill(seed, 54).0, k - 1), i2 - 1),
                    arr@.len() == 56,
                decreases 56 - i2,
            {
                let j: usize = 1 + (i2 + 30) % 55;
                let mut v: i32 = arr[i2].wrapping_sub(arr[j]);
                if v < 0 {
                    v = v + 0x7fff_ffff;
                }
                arr[i2] = v;
                i2 = i2 + 1;
            }
            k = k + 1;
        }

        MsCorLibRandom { seed: arr, n: 0, np: 21 }
    }

    /// One raw draw in `[-1, i32::MAX - 1]` (the correction makes every
    /// honest outcome nonnegative; `-1` marks the one theoretical wrap).
    pub fn gen(&mut self) -> (r: i32)
        requires
            old(self).wf(),
        ensures
            final(self).wf(),
            (final(self).spec_state(), r) == spec_gen_st(old(self).spec_state()),
            -1 <= r < i32::MAX,
    {
        self.n = if self.n + 1 >= 56 {
            1
        } else {
            self.n + 1
        };
        self.np = if self.np + 1 >= 56 {
            1
        } else {
            self.np + 1
        };

        let mut result: i32 = self.seed[self.n].wrapping_sub(self.seed[self.np]);

        if result == i32::MAX {
            result = result - 1;
        }
        if result < 0 {
            result = result + 0x7fff_ffff;
        }

        self.seed[self.n] = result;

        result
    }

    /// A unit-interval draw: one raw draw scaled by the binary64 constant
    /// `1.0 / (2^31 - 1)`, carried exactly.
    pub fn gen_float(&mut self) -> (r: UnitValue)
        requires
            old(self).wf(),
        ensures
            final(self).wf(),
            (final(self).spec_state(), r) == spec_gen_float_st(old(self).spec_state()),
            r.wf(),
    {
        let g: i32 = self.gen();
        proof {
            lemma2_to64();
            lemma2_to64_rest();
            lemma_pow2_adds(19, 64);
        }
        if g < 0 {
            UnitValue { neg: true, num: FLOAT_SCALE_NUM, den: 83 }
        } else {
            let p: u128 = (g as u128) * FLOAT_SCALE_NUM;
            proof {
                lemma_mul_inequality(g as int, 0x7fff_fffe, FLOAT_SCALE_NUM as int);
                lemma_pow2_adds(56, 64);
                unit::lemma_bit_len_le(p as nat, 83);
                unit::lemma_round53_bounds(p as nat);
                if unit::spec_bit_len(p as nat) < 83 {
                    lemma_pow2_strictly_increases(unit::spec_bit_len(p as nat), 83);
                }
            }
            let num: u128 = unit::round53(p);
            UnitValue { neg: false, num, den: 83 }
        }
    }

    pub fn gen_range(&mut self, lo: i32, hi: i32) -> (r: Result<i32, SearchError>)
        requires
            old(self).wf(),
        ensures
            final(self).wf(),
            lo >= hi ==> r == Err::<i32, SearchError>(SearchError::EmptyRange) && *final(self)
                == *old(self),
            lo < hi ==> ({
                let (st2, v) = spec_gen_range_st(old(self).spec_state(), lo, hi);
                &&& r == Ok::<i32, SearchError>(v)
                &&& final(self).spec_state() == st2
            }),
    {
        if lo >= hi {
            return Err(SearchError::EmptyRange);
        }

        let diff: u32 = (#[verifier::truncate] (hi as u32)).wrapping_sub(
            #[verifier::truncate] (lo as u32),
        );
        if diff <= 0x7fff_ffffu32 {
            let u: UnitValue = self.gen_float();
            let t: u64 = unit::mul_trunc_mag(&u, diff);
            let v: i32 = if u.neg {
                -(t as i32)
            } else {
                t as i32
            };
            Ok(lo.wrapping_add(v))
        } else {
            let s1: i32 = self.gen();
            let s2: i32 = self.gen();
            let sample: i32 = if s2 % 2 == 0 {
                -s1
            } else {
                s1
            };
            let a64: i64 = sample as i64 + 2147483646i64;
            let u: UnitValue = unit::fdiv53(a64 as u64, 4294967293u64);
            let t: u64 = unit::mul_trunc_mag(&u, diff);
            Ok(lo.wrapping_add(#[verifier::truncate] ((t as u32) as i32)))
        }
    }
}

/// Every raw draw lies in `[-1, i32::MAX - 1]`: the corrections leave at
/// most the single theoretical wrap below zero.
pub proof fn lemma_gen_st_range(st: (Seq<i32>, int, int))
    ensures
        -1 <= spec_gen_st(st).1 < i32::MAX,
{
}

} // verus!
