//! Platform dispatch over the two generators.
//!
//! Exactly two platforms exist, so the generator is a closed tagged union.
//! A ghost state pair carries the console state and the desktop state side
//! by side; only the half selected by the platform is ever consulted, and
//! the other half stays at a fixed placeholder, which keeps every contract a
//! plain equation on states.

use vstd::prelude::*;

use crate::error::SearchError;
use crate::jkiss::Jkiss;
use crate::merchant::Platform;
use crate::mscorlib;
use crate::mscorlib::MsCorLibRandom;
use crate::unit::UnitValue;

verus! {

pub enum Generator {
    Jkiss(Jkiss),
    MsCorLib(MsCorLibRandom),
}

/// The placeholder for the console half of a ghost state pair.
pub open spec fn spec_dummy_jkiss() -> Jkiss {
    Jkiss { x: 0, y: 0, z: 0, c: 0 }
}

/// The placeholder for the desktop half of a ghost state pair.
pub open spec fn spec_dummy_ms() -> (Seq<i32>, int, int) {
    (Seq::empty(), 0int, 0int)
}

/// The ghost state pair of a generator: its own state on the half its
/// platform selects, the placeholder on the other.
pub open spec fn gen_to_st(g: Generator) -> (Jkiss, (Seq<i32>, int, int)) {
    match g {
        Generator::Jkiss(j) => (j, spec_dummy_ms()),
        Generator::MsCorLib(m) => (spec_dummy_jkiss(), m.spec_state()),
    }
}

/// The state pair right after seeding.
pub open spec fn spec_state_init(platform: Platform, seed: i32) -> (Jkiss, (Seq<i32>, int, int)) {
    match platform {
        Platform::Switch => (Jkiss::spec_from_seed(seed), spec_dummy_ms()),
        Platform::PC => (spec_dummy_jkiss(), (mscorlib::spec_init_seed_array(seed), 0int, 21int)),
    }
}

/// One ranged draw on the platform's half of the state pair (for `lo < hi`).
pub open spec fn spec_gen_range_g(
    platform: Platform,
    st: (Jkiss, (Seq<i32>, int, int)),
    lo: i32,
    hi: i32,
) -> ((Jkiss, (Seq<i32>, int, int)), i32) {
    match platform {
        Platform::Switch => {
            let (j2, v) = Jkiss::spec_gen_range(st.0, lo, hi);
            ((j2, st.1), v)
        },
        Platform::PC => {
            let (m2, v) = mscorlib::spec_gen_range_st(st.1, lo, hi);
            ((st.0, m2), v)
        },
    }
}

/// One unit draw on the platform's half of the state pair.
pub open spec fn spec_gen_float_g(platform: Platform, st: (Jkiss, (Seq<i32>, int, int))) -> (
    (Jkiss, (Seq<i32>, int, int)),
    UnitValue,
) {
    match platform {
        Platform::Switch => {
            let (j2, u) = Jkiss::spec_gen_float(st.0);
            ((j2, st.1), u)
        },
        Platform::PC => {
            let (m2, u) = mscorlib::spec_gen_float_st(st.1);
            ((st.0, m2), u)
        },
    }
}

impl Generator {
    pub open spec fn spec_platform(&self) -> Platform {
        match self {
            Generator::Jkiss(_) => Platform::Switch,
            Generator::MsCorLib(_) => Platform::PC,
        }
    }

    pub open spec fn wf(&self) -> bool {
        match self {
            Generator::Jkiss(_) => true,
            Generator::MsCorLib(m) => m.wf(),
        }
    }

    /// An integer draw from `[lo, hi)`, or `EmptyRange` when `lo >= hi`.
    pub fn gen_range(&mut self, lo: i32, hi: i32) -> (r: Result<i32, SearchError>)
        requires
            old(self).wf(),
        ensures
            final(self).wf(),
            final(self).spec_platform() == old(self).spec_platform(),
            lo >= hi ==> r == Err::<i32, SearchError>(SearchError::EmptyRange) && *final(self)
                == *old(self),
            lo < hi ==> ({
                let (st2, v) = spec_gen_range_g(
                    old(self).spec_platform(),
                    gen_to_st(*old(self)),
                    lo,
                    hi,
                );
                &&& r == Ok::<i32, SearchError>(v)
                &&& gen_to_st(*final(self)) == st2
            }),
    {
        match self {
            Generator::Jkiss(j) => j.gen_range(lo, hi),
            Generator::MsCorLib(m) => m.gen_range(lo, hi),
        }
    }

    /// A unit-interval draw, exact as a dyadic fraction.
    pub fn gen_float(&mut self) -> (r: UnitValue)
        requires
            old(self).wf(),
        ensures
            final(self).wf(),
            final(self).spec_platform() == old(self).spec_platform(),
            ({
                let (st2, u) = spec_gen_float_g(old(self).spec_platform(), gen_to_st(*old(self)));
                &&& r == u
                &&& gen_to_st(*final(self)) == st2
            }),
            r.wf(),
    {
        match self {
            Generator::Jkiss(j) => j.gen_float(),
            Generator::MsCorLib(m) => m.gen_float(),
        }
    }
}

/// The platform's generator, seeded.
pub fn get_prng(platform: Platform, seed: i32) -> (g: Generator)
    ensures
        g.wf(),
        g.spec_platform() == platform,
        gen_to_st(g) == spec_state_init(platform, seed),
{
    match platform {
        Platform::Switch => Generator::Jkiss(Jkiss::from_seed(seed)),
        Platform::PC => Generator::MsCorLib(MsCorLibRandom::from_seed(seed)),
    }
}

} // verus!
