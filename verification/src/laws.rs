//! Cross-cutting laws of the generator engine.

use vstd::arithmetic::div_mod::*;
use vstd::arithmetic::mul::*;
use vstd::arithmetic::power2::*;
use vstd::prelude::*;

use crate::error::SearchError;
use crate::jkiss::Jkiss;
use crate::merchant::Platform;
use crate::mscorlib;
use crate::prng::gen_to_st;
use crate::prng::spec_gen_float_g;
use crate::prng::spec_gen_range_g;
use crate::prng::Generator;
use crate::unit;
use crate::unit::UnitValue;

verus! {

/// One request to a generator: a ranged integer draw or a unit draw.
pub enum DrawCall {
    Range(i32, i32),
    Unit,
}

/// What one request produces.
pub enum DrawOutcome {
    Ranged(Result<i32, SearchError>),
    UnitDrawn(UnitValue),
}

/// One request applied to a state pair; an empty range fails and leaves
/// the state unchanged, exactly as the generators' contracts say.
pub open spec fn spec_draw_one(
    platform: Platform,
    st: (Jkiss, (Seq<i32>, int, int)),
    call: DrawCall,
) -> ((Jkiss, (Seq<i32>, int, int)), DrawOutcome) {
    match call {
        DrawCall::Range(lo, hi) => if lo >= hi {
            (st, DrawOutcome::Ranged(Err(SearchError::EmptyRange)))
        } else {
            let (st2, v) = spec_gen_range_g(platform, st, lo, hi);
            (st2, DrawOutcome::Ranged(Ok(v)))
        },
        DrawCall::Unit => {
            let (st2, u) = spec_gen_float_g(platform, st);
            (st2, DrawOutcome::UnitDrawn(u))
        },
    }
}

/// The outcomes of a whole call sequence.
pub open spec fn spec_draws(
    platform: Platform,
    st: (Jkiss, (Seq<i32>, int, int)),
    calls: Seq<DrawCall>,
) -> Seq<DrawOutcome>
    decreases calls.len(),
{
    if calls.len() == 0 {
        Seq::empty()
    } else {
        let (st2, out) = spec_draw_one(platform, st, calls[0]);
        seq![out] + spec_draws(platform, st2, calls.drop_first())
    }
}

/// Generator determinism: every draw is a function of the generator state
/// alone, so two independently constructed instances with equal states —
/// which `get_prng` guarantees for two instances seeded alike — produce
/// identical outcome sequences for any fixed sequence of calls.
pub proof fn lemma_generator_determinism(g1: Generator, g2: Generator, calls: Seq<DrawCall>)
    requires
        g1.spec_platform() == g2.spec_platform(),
        gen_to_st(g1) == gen_to_st(g2),
    ensures
        spec_draws(g1.spec_platform(), gen_to_st(g1), calls) == spec_draws(
            g2.spec_platform(),
            gen_to_st(g2),
            calls,
        ),
{
}

/// A draw from the width-one range `[a, a+1)` always returns `a`.  The
/// console generator consumes no state for it; the desktop generator
/// consumes exactly the one unit draw that its range sampling always
/// performs, and the scaled value still truncates to zero.
pub proof fn lemma_singleton_range(
    platform: Platform,
    st: (Jkiss, (Seq<i32>, int, int)),
    a: i32,
)
    requires
        a < i32::MAX,
    ensures
        spec_gen_range_g(platform, st, a, (a + 1) as i32).1 == a,
        platform == Platform::Switch ==> spec_gen_range_g(platform, st, a, (a + 1) as i32).0 == st,
        platform == Platform::PC ==> spec_gen_range_g(platform, st, a, (a + 1) as i32).0
            == spec_gen_float_g(platform, st).0,
{
    let b: i32 = (a + 1) as i32;
    assert((b as u32).wrapping_sub(a as u32) == 1u32) by (bit_vector)
        requires
            b == a + 1,
            a < i32::MAX,
    ;
    match platform {
        Platform::Switch => {
            assert(Jkiss::spec_gen_range(st.0, a, b) == (st.0, a));
            assert(st == (st.0, st.1));
        },
        Platform::PC => {
            lemma2_to64();
            lemma2_to64_rest();
            lemma_pow2_adds(19, 64);
            lemma_pow2_adds(20, 64);
            lemma_pow2_adds(30, 53);
            lemma_pow2_pos(53);
            lemma_pow2_pos(83);
            let (ms2, g) = mscorlib::spec_gen_st(st.1);
            mscorlib::lemma_gen_st_range(st.1);
            let u = mscorlib::spec_ms_unit(g);
            // the scaled magnitude truncates to zero: num stays below 2^83
            // and is already rounded, so dividing the scale back out gives 0
            if g >= 0 {
                let p = (g * mscorlib::FLOAT_SCALE_NUM) as nat;
                lemma_mul_inequality(g as int, 0x7fff_fffe, mscorlib::FLOAT_SCALE_NUM as int);
                unit::lemma_round53_bounds(p);
                unit::lemma_bit_len_le(p, 83);
                if unit::spec_bit_len(p) < 83 {
                    lemma_pow2_strictly_increases(unit::spec_bit_len(p), 83);
                }
                assert(unit::spec_round53(p) <= pow2(83));
                assert(u.num == unit::spec_round53(p));
                unit::lemma_round53_idempotent(p);
                assert(unit::spec_round53(u.num as nat) == u.num);
                // round53(p) <= p + p / 2^53 < 2^83
                lemma_div_is_ordered(p as int, pow2(83) as int, pow2(53) as int);
                lemma_div_multiples_vanish(pow2(30) as int, pow2(53) as int);
                assert(p / pow2(53) <= pow2(30));
                assert(u.num < pow2(83));
            } else {
                assert(u.num == mscorlib::FLOAT_SCALE_NUM);
                unit::lemma_bit_len_le(u.num as nat, 53);
                assert(unit::spec_round53(u.num as nat) == u.num);
                assert(u.num < pow2(83));
            }
            let t = unit::spec_mul_trunc_mag(u, 1u32);
            assert(u.num * 1u32 == u.num) by (nonlinear_arith);
            assert(t == 0) by {
                lemma_basic_div(unit::spec_round53(u.num as nat) as int, pow2(83) as int);
            }
            assert(a.wrapping_add(0i32) == a);
            assert(a.wrapping_add((-(0int)) as i32) == a);
        },
    }
}

} // verus!
