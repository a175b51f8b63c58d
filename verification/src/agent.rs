//! Search worker.
//!
//! A worker owns one residue class of the seed space: starting from its
//! offset it checks seeds `start, start + add, start + 2*add, ...` through
//! the comparator, a bounded batch per invocation, and reports the first
//! seed that validates (adjusted by the caller's calendar offset), a
//! per-seed error, a progress tick at a batch boundary, or exhaustion when
//! advancing the cursor would leave the 32-bit domain.  The surrounding
//! message loop only delivers inputs and outputs; every decision is here.

use vstd::arithmetic::mul::*;
use vstd::prelude::*;

use crate::catalog::Catalog;
use crate::catalog::FilterTables;
use crate::error::SearchError;
use crate::merchant::spec_seed_valid;
use crate::merchant::TravelingMerchant;

verus! {

/// Seeds per batch in the standard scheduling (2^24); progress advances by
/// one such unit per tick.
pub const PROGRESS_INCREMENT: u64 = 16777216;

/// The full size of the 32-bit seed space (2^32).
pub const PROGRESS_MAX: u64 = 4294967296;

/// A start command: partition offset, stride (the worker count), calendar
/// offset, seeds per batch, and the observed stock to validate against.
#[derive(Clone, Copy)]
pub struct AgentStart {
    pub start: u32,
    pub add: u32,
    pub date: i32,
    pub batch: u32,
    pub merchant: TravelingMerchant,
}

pub enum AgentInput {
    Start(AgentStart),
    Continue,
}

#[derive(Clone, Copy, PartialEq, Eq, Structural, Debug)]
pub enum AgentOutput {
    Error(SearchError),
    SeedFound(i32),
    SeedNotFound,
    Progress,
}

/// The first outcome among the next `fuel` seeds of the progression: the
/// first validating seed or the first per-seed error, or `None` when the
/// batch or the 32-bit domain runs out first.
pub open spec fn spec_first_hit(
    m: TravelingMerchant,
    t: FilterTables,
    c: Catalog,
    cur: u32,
    add: u32,
    fuel: nat,
) -> Option<Result<u32, SearchError>>
    decreases fuel,
{
    if fuel == 0 {
        None
    } else {
        match spec_seed_valid(m, t, c, cur as i32) {
            Err(e) => Some(Err(e)),
            Ok(true) => Some(Ok(cur)),
            Ok(false) => if cur + add > 0xffff_ffffu32 {
                None
            } else {
                spec_first_hit(m, t, c, (cur + add) as u32, add, (fuel - 1) as nat)
            },
        }
    }
}

/// The worker: idle when `start` is `None`, otherwise holding its cursor.
pub struct Agent {
    pub start: Option<AgentStart>,
}

impl Agent {
    pub open spec fn wf(&self) -> bool {
        match self.start {
            Some(s) => s.add >= 1,
            None => true,
        }
    }

    pub fn new() -> (r: Agent)
        ensures
            r.start is None,
            r.wf(),
    {
        Agent { start: None }
    }

    /// Handle one input: a `Start` arms the worker, and any input then runs
    /// one batch.  Exactly one output is produced per armed invocation:
    /// the first hit in the batch as `SeedFound` (calendar-adjusted) or
    /// `Error`, otherwise `Progress` with the cursor advanced by one batch,
    /// or `SeedNotFound` when that advance leaves the 32-bit domain.
    #[verifier::rlimit(100)]
    #[verifier::loop_isolation(false)]
    pub fn handle_input(
        &mut self,
        tables: &FilterTables,
        catalog: &Catalog,
        msg: AgentInput,
    ) -> (out: Option<AgentOutput>)
        requires
            tables.len_ok(),
            old(self).wf(),
            (msg matches AgentInput::Start(s) ==> s.add >= 1),
        ensures
            final(self).wf(),
            ({
                let eff = match msg {
                    AgentInput::Start(s) => Some(s),
                    AgentInput::Continue => old(self).start,
                };
                match eff {
                    None => out is None && final(self).start is None,
                    Some(s) => match spec_first_hit(
                        s.merchant,
                        *tables,
                        *catalog,
                        s.start,
                        s.add,
                        s.batch as nat,
                    ) {
                        Some(Ok(seed)) => out == Some(
                            AgentOutput::SeedFound((seed as i32).wrapping_sub(s.date)),
                        ) && final(self).start is None,
                        Some(Err(e)) => out == Some(AgentOutput::Error(e))
                            && final(self).start is None,
                        None => {
                            if s.add * s.batch + s.start > 0xffff_ffffu32 {
                                out == Some(AgentOutput::SeedNotFound) && final(self).start is None
                            } else {
                                out == Some(AgentOutput::Progress) && final(self).start == Some(
                                    AgentStart {
                                        start: (s.start + s.add * s.batch) as u32,
                                        add: s.add,
                                        date: s.date,
                                        batch: s.batch,
                                        merchant: s.merchant,
                                    },
                                )
                            }
                        },
                    },
                }
            }),
    {
        match msg {
            AgentInput::Start(s) => {
                self.start = Some(s);
            },
            AgentInput::Continue => {},
        }

        let s: AgentStart = match self.start {
            Some(s) => s,
            None => {
                return None;
            },
        };

        let mut cur: u32 = s.start;
        let mut i: u32 = 0;
        while i < s.batch
            invariant
                i <= s.batch,
                s.add >= 1,
                tables.len_ok(),
                self.start == Some(s),
                cur as int == s.start + s.add * (i as int),
                spec_first_hit(s.merchant, *tables, *catalog, s.start, s.add, s.batch as nat)
                    == spec_first_hit(
                    s.merchant,
                    *tables,
                    *catalog,
                    cur,
                    s.add,
                    (s.batch - i) as nat,
                ),
            decreases s.batch - i,
        {
            match s.merchant.seed_valid(tables, catalog, #[verifier::truncate] (cur as i32)) {
                Ok(true) => {
                    proof {
                        assert(spec_first_hit(
                            s.merchant,
                            *tables,
                            *catalog,
                            cur,
                            s.add,
                            (s.batch - i) as nat,
                        ) == Some(Ok::<u32, SearchError>(cur)));
                    }
                    self.start = None;
                    return Some(
                        AgentOutput::SeedFound(
                            (#[verifier::truncate] (cur as i32)).wrapping_sub(s.date),
                        ),
                    );
                },
                Ok(false) => {},
                Err(e) => {
                    proof {
                        assert(spec_first_hit(
                            s.merchant,
                            *tables,
                            *catalog,
                            cur,
                            s.add,
                            (s.batch - i) as nat,
                        ) == Some(Err::<u32, SearchError>(e)));
                    }
                    self.start = None;
                    return Some(AgentOutput::Error(e));
                },
            }
            match cur.checked_add(s.add) {
                Some(nxt) => {
                    proof {
                        assert(s.add * ((i + 1) as int) == s.add * (i as int) + s.add)
                            by (nonlinear_arith);
                    }
                    cur = nxt;
                },
                None => {
                    proof {
                        // the full batch step overflows too: add * batch >= add * (i + 1)
                        lemma_mul_inequality((i + 1) as int, s.batch as int, s.add as int);
                        lemma_mul_is_commutative((i + 1) as int, s.add as int);
                        lemma_mul_is_commutative(s.batch as int, s.add as int);
                        assert(s.add * ((i + 1) as int) == s.add * (i as int) + s.add)
                            by (nonlinear_arith);
                        assert(s.add * s.batch + s.start > 0xffff_ffffu32);
                        assert(spec_first_hit(
                            s.merchant,
                            *tables,
                            *catalog,
                            cur,
                            s.add,
                            (s.batch - i) as nat,
                        ) is None);
                    }
                    self.start = None;
                    return Some(AgentOutput::SeedNotFound);
                },
            }
            i = i + 1;
        }

        match s.add.checked_mul(s.batch) {
            Some(stepv) => match s.start.checked_add(stepv) {
                Some(ns) => {
                    self.start = Some(
                        AgentStart {
                            start: ns,
                            add: s.add,
                            date: s.date,
                            batch: s.batch,
                            merchant: s.merchant,
                        },
                    );
                    Some(AgentOutput::Progress)
                },
                None => {
                    self.start = None;
                    Some(AgentOutput::SeedNotFound)
                },
            },
            None => {
                proof {
                    lemma_mul_inequality(1, s.batch as int, s.add as int);
                    lemma_mul_is_commutative(s.batch as int, s.add as int);
                }
                self.start = None;
                Some(AgentOutput::SeedNotFound)
            },
        }
    }
}

} // verus!
