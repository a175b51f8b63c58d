//! Exact arithmetic for unit-interval draws.
//!
//! Both generators hand out values in `[0, 1)` that the replay only ever
//! scales by a small integer, truncates, or compares against one tenth.  The
//! desktop runtime computes them in 64-bit binary floating point; to stay
//! bit-for-bit faithful without floating point, a draw is carried as an exact
//! dyadic fraction `±num / 2^den`, and the two rounding operations that
//! binary64 performs (rounding a product to 53 significant bits, and rounding
//! a quotient to 53 significant bits) are emulated on integers with
//! round-half-even.

use vstd::arithmetic::div_mod::*;
use vstd::arithmetic::mul::*;
use vstd::arithmetic::power2::*;
use vstd::prelude::*;

verus! {

/// `0.1` as a binary64 value is exactly `3602879701896397 / 2^55`.
pub const TENTH_NUM: u128 = 3602879701896397;

/// A unit-interval draw, exactly `±num / 2^den`.
pub struct UnitValue {
    pub neg: bool,
    pub num: u128,
    pub den: u32,
}

impl UnitValue {
    pub open spec fn wf(&self) -> bool {
        &&& 53 <= self.den <= 84
        &&& self.num <= pow2(self.den as nat)
    }
}

/// Number of binary digits of `n` (0 for 0).
pub open spec fn spec_bit_len(n: nat) -> nat
    decreases n,
{
    if n == 0 {
        0
    } else {
        (1 + spec_bit_len(n / 2)) as nat
    }
}

pub proof fn lemma_bit_len_bounds(n: nat)
    ensures
        n < pow2(spec_bit_len(n)),
        n >= 1 ==> pow2((spec_bit_len(n) - 1) as nat) <= n,
    decreases n,
{
    lemma2_to64();
        lemma2_to64_rest();
    if n > 0 {
        let m = n / 2;
        lemma_bit_len_bounds(m);
        let bl = spec_bit_len(n);
        lemma_pow2_unfold(bl);
        lemma_fundamental_div_mod(n as int, 2);
        if m >= 1 {
            lemma_pow2_unfold((bl - 1) as nat);
        }
    }
}

/// A bit length bound is the same as a power-of-two bound.
pub proof fn lemma_bit_len_le(n: nat, b: nat)
    requires
        n < pow2(b),
    ensures
        spec_bit_len(n) <= b,
{
    if spec_bit_len(n) > b {
        lemma_bit_len_bounds(n);
        if (spec_bit_len(n) - 1) as nat > b {
            lemma_pow2_strictly_increases(b, (spec_bit_len(n) - 1) as nat);
        }
    }
}

proof fn lemma_pow2_128()
    ensures
        pow2(116) == 0x10_0000_0000_0000_0000_0000_0000_0000,
        pow2(120) == 0x100_0000_0000_0000_0000_0000_0000_0000,
        pow2(128) == 0x1_0000_0000_0000_0000_0000_0000_0000_0000,
        pow2(84) == 0x10_0000_0000_0000_0000_0000,
        pow2(85) == 0x20_0000_0000_0000_0000_0000,
{
    lemma2_to64();
        lemma2_to64_rest();
    lemma_pow2_adds(52, 64);
    lemma_pow2_adds(56, 64);
    lemma_pow2_adds(64, 64);
    lemma_pow2_adds(20, 64);
    lemma_pow2_adds(21, 64);
}

fn bit_len_u128(p: u128) -> (r: u32)
    ensures
        r == spec_bit_len(p as nat),
        r <= 128,
{
    proof {
        lemma_pow2_128();
        lemma_bit_len_le(p as nat, 128);
    }
    let mut n: u128 = p;
    let mut l: u32 = 0;
    while n > 0
        invariant
            spec_bit_len(p as nat) == l + spec_bit_len(n as nat),
            spec_bit_len(p as nat) <= 128,
        decreases n,
    {
        n = n / 2;
        l = l + 1;
    }
    l
}

fn pow2_u128(k: u32) -> (r: u128)
    requires
        k <= 127,
    ensures
        r == pow2(k as nat),
{
    let mut r: u128 = 1;
    let mut i: u32 = 0;
    proof {
        lemma2_to64();
        lemma2_to64_rest();
    }
    while i < k
        invariant
            i <= k,
            k <= 127,
            r == pow2(i as nat),
        decreases k - i,
    {
        proof {
            lemma_pow2_128();
            lemma_pow2_unfold((i + 1) as nat);
            lemma_pow2_strictly_increases((i + 1) as nat, 128);
        }
        r = r * 2;
        i = i + 1;
    }
    r
}

/// `p` rounded to 53 significant binary digits, round-half-even, kept at the
/// same scale (the result is a multiple of the granule `2^(bit_len(p)-53)`).
pub open spec fn spec_round53(p: nat) -> nat {
    let bl = spec_bit_len(p);
    if bl <= 53 {
        p
    } else {
        let k = (bl - 53) as nat;
        let q = p / pow2(k);
        let r = p % pow2(k);
        let half = pow2(k) / 2;
        if r > half || (r == half && q % 2 == 1) {
            (q + 1) * pow2(k)
        } else {
            q * pow2(k)
        }
    }
}

pub proof fn lemma_round53_bounds(p: nat)
    ensures
        spec_round53(p) <= pow2(spec_bit_len(p)),
        spec_round53(p) <= p + p / pow2(53),
{
    let bl = spec_bit_len(p);
    lemma_bit_len_bounds(p);
    lemma_pow2_pos(53);
    if bl <= 53 {
        lemma_pow2_pos(bl);
        lemma_div_pos_is_pos(p as int, pow2(53) as int);
    } else {
        let k = (bl - 53) as nat;
        let pk = pow2(k);
        let q = p / pk;
        let r = p % pk;
        let half = pk / 2;
        lemma_pow2_pos(k);
        lemma_pow2_adds(k, 53);
        lemma_fundamental_div_mod(p as int, pk as int);
        // q < 2^53 since p < 2^bl = pk * 2^53
        lemma_multiply_divide_lt(p as int, pk as int, pow2(53) as int);
        lemma_mul_inequality((q + 1) as int, pow2(53) as int, pk as int);
        // rounding up adds at most half = 2^(k-1)
        lemma_pow2_unfold(k);
        assert(pk == 2 * half);
        // half <= p / 2^53 since half * 2^53 = 2^(k+52) = 2^(bl-1) <= p
        lemma_pow2_adds((k - 1) as nat, 53);
        lemma_pow2_unfold((bl - 1) as nat);
        assert(half == pow2((k - 1) as nat));
        assert(half * pow2(53) == pow2((bl - 1) as nat));
        lemma_div_is_ordered((half * pow2(53)) as int, p as int, pow2(53) as int);
        lemma_div_multiples_vanish(half as int, pow2(53) as int);
        assert(half <= p / pow2(53));
        assert(q * pk <= p);
        assert((q + 1) * pk == q * pk + pk) by (nonlinear_arith);
    }
}

/// The rounded value is a multiple of its granule.
pub proof fn lemma_round53_granule(p: nat)
    requires
        spec_bit_len(p) > 53,
    ensures
        spec_round53(p) % pow2((spec_bit_len(p) - 53) as nat) == 0,
{
    let k = (spec_bit_len(p) - 53) as nat;
    let pk = pow2(k);
    lemma_pow2_pos(k);
    let q = p / pk;
    if p % pk > pk / 2 || (p % pk == pk / 2 && q % 2 == 1) {
        lemma_mod_multiples_basic((q + 1) as int, pk as int);
    } else {
        lemma_mod_multiples_basic(q as int, pk as int);
    }
}

pub fn round53(p: u128) -> (r: u128)
    requires
        (p as nat) < pow2(120),
    ensures
        r == spec_round53(p as nat),
{
    let bl = bit_len_u128(p);
    proof {
        lemma_bit_len_le(p as nat, 120);
    }
    if bl <= 53 {
        return p;
    }
    let k: u32 = bl - 53;
    let pk: u128 = pow2_u128(k);
    proof {
        lemma_pow2_pos(k as nat);
        lemma_bit_len_bounds(p as nat);
        lemma_pow2_adds(k as nat, 53);
        lemma_multiply_divide_lt(p as int, pk as int, pow2(53) as int);
        lemma2_to64();
        lemma2_to64_rest();
        lemma_pow2_128();
        lemma_fundamental_div_mod(p as int, pk as int);
        lemma_mul_is_commutative(pk as int, (p as nat / pk as nat) as int);
        // (q + 1) * pk <= 2^53 * pk = 2^bl <= 2^120 < 2^128
        lemma_mul_inequality((p as nat / pk as nat + 1) as int, pow2(53) as int, pk as int);
        lemma_pow2_adds(53, k as nat);
        if (bl as nat) < 120 {
            lemma_pow2_strictly_increases(bl as nat, 120);
        }
    }
    let q: u128 = p / pk;
    let r: u128 = p % pk;
    let half: u128 = pk / 2;
    if r > half || (r == half && q % 2 == 1) {
        (q + 1) * pk
    } else {
        q * pk
    }
}

/// True when the draw is (strictly) below the binary64 constant `0.1`.
pub open spec fn spec_below_tenth(u: UnitValue) -> bool {
    if u.neg {
        true
    } else {
        u.num * pow2(55) < TENTH_NUM * pow2(u.den as nat)
    }
}

pub fn below_tenth(u: &UnitValue) -> (r: bool)
    requires
        u.wf(),
    ensures
        r == spec_below_tenth(*u),
{
    if u.neg {
        return true;
    }
    if u.den >= 55 {
        let scale: u128 = pow2_u128(u.den - 55);
        proof {
            lemma2_to64();
        lemma2_to64_rest();
            lemma_pow2_128();
            lemma_pow2_adds((u.den - 55) as nat, 55);
            lemma_pow2_pos(55);
            // overflow bound: TENTH_NUM * scale <= TENTH_NUM * 2^29
            if ((u.den - 55) as nat) < 29 {
                lemma_pow2_strictly_increases((u.den - 55) as nat, 29);
            }
            lemma_mul_inequality(scale as int, pow2(29) as int, TENTH_NUM as int);
            lemma_mul_is_commutative(scale as int, TENTH_NUM as int);
            // u.num < TENTH_NUM * scale  <==>  u.num * 2^55 < TENTH_NUM * 2^den
            let sn = (TENTH_NUM as nat * scale as nat) as int;
            if (u.num as int) < sn {
                lemma_mul_strict_inequality(u.num as int, sn, pow2(55) as int);
            } else {
                lemma_mul_inequality(sn, u.num as int, pow2(55) as int);
            }
            lemma_mul_is_associative(TENTH_NUM as int, scale as int, pow2(55) as int);
        }
        u.num < TENTH_NUM * scale
    } else {
        let scale: u128 = pow2_u128(55 - u.den);
        proof {
            lemma2_to64();
        lemma2_to64_rest();
            lemma_pow2_128();
            lemma_pow2_adds((55 - u.den) as nat, u.den as nat);
            lemma_pow2_pos(u.den as nat);
            lemma_pow2_strictly_increases(u.den as nat, 55);
            // overflow: num * scale <= 2^den * 2^(55-den) = 2^55
            lemma_mul_inequality(u.num as int, pow2(u.den as nat) as int, scale as int);
            lemma_mul_is_commutative(pow2(u.den as nat) as int, scale as int);
            // u.num * scale < TENTH_NUM  <==>  u.num * 2^55 < TENTH_NUM * 2^den
            let lh = (u.num as nat * scale as nat) as int;
            if lh < TENTH_NUM as int {
                lemma_mul_strict_inequality(lh, TENTH_NUM as int, pow2(u.den as nat) as int);
            } else {
                lemma_mul_inequality(TENTH_NUM as int, lh, pow2(u.den as nat) as int);
            }
            lemma_mul_is_associative(u.num as int, scale as int, pow2(u.den as nat) as int);
            lemma_pow2_adds(u.den as nat, (55 - u.den) as nat);
            lemma_mul_is_commutative(scale as int, pow2(u.den as nat) as int);
        }
        u.num * scale < TENTH_NUM
    }
}

/// The magnitude of the binary64 product `u * diff`, truncated to an
/// integer: the product is rounded to 53 significant bits and the scale
/// `2^den` is divided back out.
pub open spec fn spec_mul_trunc_mag(u: UnitValue, diff: u32) -> nat {
    spec_round53((u.num * diff) as nat) / pow2(u.den as nat)
}

pub fn mul_trunc_mag(u: &UnitValue, diff: u32) -> (t: u64)
    requires
        u.wf(),
    ensures
        t == spec_mul_trunc_mag(*u, diff),
        t <= diff,
{
    proof {
        lemma2_to64();
        lemma2_to64_rest();
        lemma_pow2_128();
        // num <= 2^84
        if (u.den as nat) < 84 {
            lemma_pow2_strictly_increases(u.den as nat, 84);
        }
        // p0 <= 2^84 * (2^32 - 1) < 2^116 < 2^120
        lemma_mul_upper_bound(u.num as int, pow2(84) as int, diff as int, (pow2(32) - 1) as int);
        lemma_pow2_adds(84, 32);
        lemma_mul_strict_inequality((pow2(32) - 1) as int, pow2(32) as int, pow2(84) as int);
        lemma_mul_is_commutative((pow2(32) - 1) as int, pow2(84) as int);
        lemma_mul_is_commutative(pow2(84) as int, pow2(32) as int);
        lemma_pow2_strictly_increases(116, 120);
    }
    let p0: u128 = u.num * (diff as u128);
    let pr: u128 = round53(p0);
    let pd: u128 = pow2_u128(u.den);
    proof {
        lemma_pow2_pos(u.den as nat);
        lemma_pow2_pos(53);
        lemma_round53_bounds(p0 as nat);
        // p0 <= 2^den * diff
        lemma_mul_inequality(u.num as int, pow2(u.den as nat) as int, diff as int);
        lemma_mul_is_commutative(pow2(u.den as nat) as int, diff as int);
        // p0 / 2^53 <= (2^den * diff) / 2^53 == 2^(den-53) * diff
        lemma_div_is_ordered(p0 as int, (pow2(u.den as nat) * diff) as int, pow2(53) as int);
        lemma_pow2_adds((u.den - 53) as nat, 53);
        lemma_mul_is_associative(pow2((u.den - 53) as nat) as int, pow2(53) as int, diff as int);
        lemma_mul_is_commutative(pow2(53) as int, diff as int);
        lemma_mul_is_associative(pow2((u.den - 53) as nat) as int, diff as int, pow2(53) as int);
        lemma_div_multiples_vanish((pow2((u.den - 53) as nat) * diff) as int, pow2(53) as int);
        lemma_mul_is_commutative(pow2((u.den - 53) as nat) as int, diff as int);
        assert(p0 as nat / pow2(53) <= pow2((u.den - 53) as nat) * diff);
        // so pr < 2^den * (diff + 1), hence pr / 2^den <= diff
        lemma_pow2_strictly_increases(32, 53);
        if diff > 0 {
            lemma_mul_strict_inequality(
                diff as int,
                pow2(53) as int,
                pow2((u.den - 53) as nat) as int,
            );
            lemma_mul_is_commutative(diff as int, pow2((u.den - 53) as nat) as int);
        } else {
            lemma_pow2_pos((u.den - 53) as nat);
        }
        lemma_pow2_adds((u.den - 53) as nat, 53);
        lemma_mul_is_commutative(pow2((u.den - 53) as nat) as int, pow2(53) as int);
        assert(pow2((u.den - 53) as nat) * diff < pow2(u.den as nat));
        assert((pr as int) < pow2(u.den as nat) * (diff + 1)) by (nonlinear_arith)
            requires
                (pr as int) <= pow2(u.den as nat) * diff + pow2((u.den - 53) as nat) * diff,
                pow2((u.den - 53) as nat) * diff < pow2(u.den as nat),
        ;
        lemma_multiply_divide_lt(pr as int, pow2(u.den as nat) as int, (diff + 1) as int);
        lemma_div_pos_is_pos(pr as int, pow2(u.den as nat) as int);
    }
    let t: u128 = pr / pd;
    t as u64
}

/// The exponent that normalizes `a / b` to 53 significant bits.
pub open spec fn spec_norm_exp(a: nat, b: nat, e: nat) -> nat
    decreases 200 - e,
{
    if e >= 200 {
        e
    } else if a * pow2(e) / b >= pow2(52) {
        e
    } else {
        spec_norm_exp(a, b, e + 1)
    }
}

/// The binary64 quotient `a / b` for integers `0 <= a < b`, rounded to
/// nearest (ties to even).
pub open spec fn spec_fdiv53(a: nat, b: nat) -> UnitValue {
    if a == 0 {
        UnitValue { neg: false, num: 0, den: 53 }
    } else {
        let e = spec_norm_exp(a, b, 0);
        let n = a * pow2(e);
        let q = n / b;
        let r = n % b;
        let num = if 2 * r > b || (2 * r == b && q % 2 == 1) {
            q + 1
        } else {
            q
        };
        UnitValue { neg: false, num: num as u128, den: e as u32 }
    }
}

pub fn fdiv53(a: u64, b: u64) -> (u: UnitValue)
    requires
        2 <= b < 0x1_0000_0000,
        a < b,
    ensures
        u == spec_fdiv53(a as nat, b as nat),
        u.wf(),
{
    proof {
        lemma2_to64();
        lemma2_to64_rest();
    }
    if a == 0 {
        proof {
            lemma_pow2_pos(53);
        }
        return UnitValue { neg: false, num: 0, den: 53 };
    }
    let ghost an = a as nat;
    let ghost bn = b as nat;
    let mut e: u32 = 0;
    let mut n: u128 = a as u128;
    proof {
        assert(pow2(0) == 1);
        assert(n == an * pow2(0));
        lemma_basic_div(a as int, b as int);
    }
    while n / (b as u128) < 0x10_0000_0000_0000u128
        invariant
            an == a as nat,
            bn == b as nat,
            2 <= bn < 0x1_0000_0000,
            1 <= an < bn,
            n == an * pow2(e as nat),
            e <= 84,
            spec_norm_exp(an, bn, 0) == spec_norm_exp(an, bn, e as nat),
            e >= 1 ==> an * pow2((e - 1) as nat) / bn < pow2(52),
        decreases 100 - e,
    {
        proof {
            lemma2_to64();
        lemma2_to64_rest();
            lemma_pow2_128();
            // loop condition: n / b < 2^52, so n < 2^52 * b <= 2^52 * 2^32 = 2^84
            lemma_fundamental_div_mod(n as int, b as int);
            assert(n < pow2(52) * bn) by (nonlinear_arith)
                requires
                    n as int == bn * (n as int / bn as int) + n as int % bn as int,
                    (n as int / bn as int) < pow2(52),
                    0 <= (n as int % bn as int) < bn,
                    bn > 0,
            ;
            lemma_mul_inequality(bn as int, pow2(32) as int, pow2(52) as int);
            lemma_mul_is_commutative(bn as int, pow2(52) as int);
            lemma_pow2_adds(52, 32);
            assert(n < pow2(84));
            // e stays below 84: pow2(e) <= a * pow2(e) = n < 2^84
            lemma_pow2_pos(e as nat);
            lemma_mul_increases(an as int, pow2(e as nat) as int);
            if e as nat >= 84 {
                if e as nat > 84 {
                    lemma_pow2_strictly_increases(84, e as nat);
                }
                assert(false);
            }
            // spec_norm_exp steps forward
            assert(spec_norm_exp(an, bn, e as nat) == spec_norm_exp(an, bn, (e + 1) as nat));
            lemma_pow2_unfold((e + 1) as nat);
            lemma_mul_is_associative(an as int, pow2(e as nat) as int, 2);
        }
        n = n * 2;
        e = e + 1;
    }
    proof {
        lemma2_to64();
        lemma2_to64_rest();
        lemma_pow2_128();
        assert(spec_norm_exp(an, bn, e as nat) == e);
        if e == 0 {
            lemma_basic_div(a as int, b as int);
            assert(false);
        }
        // q < 2^53: n = 2 * (a * 2^(e-1)) and a * 2^(e-1) < 2^52 * b
        let prev = an * pow2((e - 1) as nat);
        lemma_fundamental_div_mod(prev as int, bn as int);
        assert(prev < pow2(52) * bn) by (nonlinear_arith)
            requires
                prev as int == bn * (prev as int / bn as int) + prev as int % bn as int,
                (prev as int / bn as int) < pow2(52),
                0 <= (prev as int % bn as int) < bn,
                bn > 0,
        ;
        lemma_pow2_unfold(e as nat);
        lemma_mul_is_associative(an as int, 2, pow2((e - 1) as nat) as int);
        lemma_mul_is_commutative(an as int, 2);
        lemma_mul_is_associative(2, an as int, pow2((e - 1) as nat) as int);
        assert(n == 2 * prev);
        lemma_pow2_unfold(53);
        assert(n < pow2(53) * bn) by (nonlinear_arith)
            requires
                n == 2 * prev,
                prev < pow2(52) * bn,
                pow2(53) == 2 * pow2(52),
        ;
        lemma_multiply_divide_lt(n as int, bn as int, pow2(53) as int);
        // e >= 53: q >= 2^52 means a * 2^e >= 2^52 * b > 2^52 * a, so 2^e > 2^52
        lemma_fundamental_div_mod(n as int, bn as int);
        assert(pow2(52) * bn <= n) by (nonlinear_arith)
            requires
                n as int == bn * (n as int / bn as int) + n as int % bn as int,
                (n as int / bn as int) >= pow2(52),
                0 <= (n as int % bn as int),
                bn > 0,
        ;
        assert(pow2(52) * an < pow2(52) * bn) by (nonlinear_arith)
            requires
                an < bn,
                pow2(52) > 0,
        ;
        assert(an * pow2(e as nat) > pow2(52) * an ==> pow2(e as nat) > pow2(52))
            by (nonlinear_arith)
            requires
                an >= 1,
        ;
        lemma_mul_is_commutative(an as int, pow2(e as nat) as int);
        if (e as nat) < 53 {
            if (e as nat) < 52 {
                lemma_pow2_strictly_increases(e as nat, 52);
            }
            assert(false);
        }
        lemma_pow2_strictly_increases(52, 53);
        if (e as nat) > 53 {
            lemma_pow2_strictly_increases(53, e as nat);
        }
    }
    let q: u128 = n / (b as u128);
    let rr: u128 = n % (b as u128);
    let num: u128 = if 2 * rr > (b as u128) || (2 * rr == (b as u128) && q % 2 == 1) {
        q + 1
    } else {
        q
    };
    UnitValue { neg: false, num, den: e }
}

/// A multiple of a larger power of two is a multiple of a smaller one.
pub proof fn lemma_pow2_mod_zero_down(x: nat, k: nat, k2: nat)
    requires
        k2 <= k,
        x % pow2(k) == 0,
    ensures
        x % pow2(k2) == 0,
{
    lemma_pow2_pos(k);
    lemma_pow2_pos(k2);
    lemma_pow2_adds(k2, (k - k2) as nat);
    let q = x / pow2(k);
    lemma_fundamental_div_mod(x as int, pow2(k) as int);
    assert(x == pow2(k) * q);
    assert(x == pow2(k2) * (pow2((k - k2) as nat) * q)) by {
        lemma_mul_is_associative(pow2(k2) as int, pow2((k - k2) as nat) as int, q as int);
    }
    lemma_mod_multiples_basic((pow2((k - k2) as nat) * q) as int, pow2(k2) as int);
    lemma_mul_is_commutative(pow2(k2) as int, (pow2((k - k2) as nat) * q) as int);
}

/// Rounding to 53 significant digits is idempotent.
pub proof fn lemma_round53_idempotent(p: nat)
    ensures
        spec_round53(spec_round53(p)) == spec_round53(p),
{
    let bl = spec_bit_len(p);
    lemma_bit_len_bounds(p);
    if bl <= 53 {
    } else {
        let k = (bl - 53) as nat;
        let r = spec_round53(p);
        lemma_round53_granule(p);
        lemma_round53_bounds(p);
        lemma_bit_len_bounds(r);
        let bl2 = spec_bit_len(r);
        // r <= 2^bl, so bl2 <= bl + 1; and r is a multiple of 2^k
        assert(bl2 <= bl + 1) by {
            if bl2 > bl + 1 {
                lemma_pow2_strictly_increases(bl + 1, bl2);
                lemma_pow2_strictly_increases(bl, (bl2 - 1) as nat);
            }
        }
        if bl2 <= 53 {
        } else {
            let k2 = (bl2 - 53) as nat;
            if bl2 == bl + 1 {
                // r reached the next power of two exactly
                assert(pow2((bl2 - 1) as nat) <= r);
                assert(r == pow2(bl));
                lemma_pow2_adds(k2, (bl - k2) as nat);
                lemma_mod_multiples_basic(pow2((bl - k2) as nat) as int, pow2(k2) as int);
                lemma_mul_is_commutative(pow2(k2) as int, pow2((bl - k2) as nat) as int);
                assert(r % pow2(k2) == 0);
            } else {
                assert(k2 <= k);
                lemma_pow2_mod_zero_down(r, k, k2);
            }
            lemma_pow2_pos(k2);
            let q2 = r / pow2(k2);
            lemma_fundamental_div_mod(r as int, pow2(k2) as int);
            assert(r % pow2(k2) == 0);
            let half2 = pow2(k2) / 2;
            lemma_pow2_unfold(k2);
            assert(half2 > 0 || k2 == 0);
            assert(spec_round53(r) == q2 * pow2(k2));
            assert(q2 * pow2(k2) == r) by {
                lemma_mul_is_commutative(q2 as int, pow2(k2) as int);
            }
        }
    }
}

} // verus!
