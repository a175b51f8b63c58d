//! Search coordinator.
//!
//! The coordinator fans the seed space out over a worker pool by residue
//! class, accumulates progress ticks into one monotonically increasing
//! counter capped at the full space size, resumes workers that are still
//! sweeping, and keeps the first reported seed: once one is found, no
//! further worker is resumed and later outputs only drain the pool.

use vstd::arithmetic::div_mod::*;
use vstd::arithmetic::mul::*;
use vstd::prelude::*;

use crate::agent::AgentOutput;
use crate::agent::AgentStart;
use crate::merchant::TravelingMerchant;

verus! {

#[derive(Clone, Copy, PartialEq, Eq, Structural, Debug)]
pub enum SeedStatus {
    NotRun,
    NotFound,
    Found(i32),
}

/// The coordinator's whole state: how many workers still run, the capped
/// progress counter, the progress step of one tick, and the outcome so far.
pub struct Coordinator {
    pub running: u32,
    pub progress: u64,
    pub progress_unit: u64,
    pub progress_max: u64,
    pub status: SeedStatus,
}

impl Coordinator {
    pub open spec fn wf(&self) -> bool {
        &&& self.progress <= self.progress_max
        &&& self.progress_unit <= self.progress_max
    }

    /// A coordinator that has just started `workers` workers.
    pub fn new(workers: u32, progress_unit: u64, progress_max: u64) -> (r: Coordinator)
        requires
            progress_unit <= progress_max,
        ensures
            r.wf(),
            r.running == workers,
            r.progress == 0,
            r.progress_unit == progress_unit,
            r.progress_max == progress_max,
            r.status == SeedStatus::NotRun,
    {
        Coordinator { running: workers, progress: 0, progress_unit, progress_max, status: SeedStatus::NotRun }
    }

    /// The start command for worker `index` of `workers`: the workers
    /// partition the seed space by residue class modulo the worker count.
    pub fn make_start(
        index: u32,
        workers: u32,
        date: i32,
        batch: u32,
        merchant: TravelingMerchant,
    ) -> (r: AgentStart)
        requires
            workers >= 1,
            index < workers,
        ensures
            r.start == index,
            r.add == workers,
            r.date == date,
            r.batch == batch,
            r.merchant == merchant,
            r.add >= 1,
    {
        AgentStart { start: index, add: workers, date, batch, merchant }
    }

    /// Take one worker output.  Returns whether that worker should be told
    /// to continue: only on a progress tick while no seed has been found.
    /// The progress counter never decreases and never passes its cap, and a
    /// found seed is never forgotten by a later tick or exhaustion report.
    pub fn on_worker_output(&mut self, output: AgentOutput) -> (resume: bool)
        requires
            old(self).wf(),
            old(self).running >= 1 || output matches AgentOutput::Error(_),
        ensures
            final(self).wf(),
            final(self).progress >= old(self).progress,
            final(self).progress_unit == old(self).progress_unit,
            final(self).progress_max == old(self).progress_max,
            (old(self).status matches SeedStatus::Found(s) ==> final(self).status == SeedStatus::Found(
                s,
            ) || output matches AgentOutput::SeedFound(_)),
            match output {
                AgentOutput::Error(_) => *final(self) == *old(self) && !resume,
                AgentOutput::SeedFound(seed) => {
                    &&& final(self).running == old(self).running - 1
                    &&& final(self).progress == old(self).progress_max
                    &&& final(self).status == SeedStatus::Found(seed)
                    &&& !resume
                },
                AgentOutput::SeedNotFound => {
                    &&& final(self).running == old(self).running - 1
                    &&& !resume
                    &&& (final(self).running == 0 && old(self).status == SeedStatus::NotRun
                        ==> final(self).status == SeedStatus::NotFound && final(self).progress == old(
                        self,
                    ).progress_max)
                    &&& (final(self).running != 0 || old(self).status != SeedStatus::NotRun
                        ==> final(self).status == old(self).status && final(self).progress == old(
                        self,
                    ).progress)
                },
                AgentOutput::Progress => {
                    &&& final(self).progress == (if old(self).progress + old(self).progress_unit
                        >= old(self).progress_max {
                        old(self).progress_max as int
                    } else {
                        old(self).progress + old(self).progress_unit
                    })
                    &&& final(self).status == old(self).status
                    &&& (resume <==> old(self).status == SeedStatus::NotRun)
                    &&& final(self).running == (if old(self).status == SeedStatus::NotRun {
                        old(self).running as int
                    } else {
                        old(self).running - 1
                    })
                },
            },
    {
        match output {
            AgentOutput::Error(_) => false,
            AgentOutput::SeedFound(seed) => {
                self.running = self.running - 1;
                self.progress = self.progress_max;
                self.status = SeedStatus::Found(seed);
                false
            },
            AgentOutput::SeedNotFound => {
                self.running = self.running - 1;
                if self.running == 0 {
                    match self.status {
                        SeedStatus::NotRun => {
                            self.progress = self.progress_max;
                            self.status = SeedStatus::NotFound;
                        },
                        _ => {},
                    }
                }
                false
            },
            AgentOutput::Progress => {
                if self.progress_max - self.progress <= self.progress_unit {
                    self.progress = self.progress_max;
                } else {
                    self.progress = self.progress + self.progress_unit;
                }
                match self.status {
                    SeedStatus::NotRun => true,
                    _ => {
                        self.running = self.running - 1;
                        false
                    },
                }
            },
        }
    }
}

/// Partition completeness: for a worker count `w`, every 32-bit seed `x`
/// lies in exactly one residue class — worker `x % w` reaches it as
/// `(x % w) + k * w`, and no other worker does — so the classes cover the
/// space with no overlaps and no gaps.
pub proof fn lemma_partition_complete(x: u32, w: u32)
    requires
        w >= 1,
    ensures
        (x as int % w as int) < w,
        0 <= (x as int % w as int),
        exists|k: int| 0 <= k && x == (x as int % w as int) + #[trigger] (k * w),
        forall|r2: int, k2: int|
            #![trigger r2 + k2 * w]
            0 <= r2 < w && 0 <= k2 && x == r2 + k2 * w ==> r2 == x as int % w as int,
{
    let xi = x as int;
    let wi = w as int;
    lemma_fundamental_div_mod(xi, wi);
    lemma_mod_bound(xi, wi);
    let q = xi / wi;
    lemma_div_pos_is_pos(xi, wi);
    assert(xi == (xi % wi) + q * wi) by {
        lemma_mul_is_commutative(wi, q);
    }
    assert forall|r2: int, k2: int|
        #![trigger r2 + k2 * w]
        0 <= r2 < w && 0 <= k2 && x == r2 + k2 * w implies r2 == xi % wi by {
        lemma_fundamental_div_mod_converse(xi, wi, k2, r2);
        lemma_mul_is_commutative(k2, wi);
    }
}

} // verus!
