//! Per-strategy counters.
use vstd::prelude::*;
use crate::cond_stmt::{fuzz_type_of, CondStmt};
use crate::defs::COND_DONE_ST;
use crate::fuzz_type::{FuzzType, FUZZ_TYPE_NUM};

verus! {

/// Counters of one strategy.
#[derive(Clone, Copy, Debug, Default, PartialEq, Eq)]
pub struct StrategyStats {
    /// Seconds spent.
    pub time: u64,
    pub num_conds: usize,
    pub active_conds: usize,
    pub num_exec: usize,
    pub num_inputs: usize,
    pub num_hangs: usize,
    pub num_crashes: usize,
}

impl StrategyStats {
    pub open spec fn zero_spec() -> StrategyStats {
        StrategyStats {
            time: 0,
            num_conds: 0,
            active_conds: 0,
            num_exec: 0,
            num_inputs: 0,
            num_hangs: 0,
            num_crashes: 0,
        }
    }

    pub fn zero() -> (r: Self)
        ensures
            r == Self::zero_spec(),
    {
        StrategyStats {
            time: 0,
            num_conds: 0,
            active_conds: 0,
            num_exec: 0,
            num_inputs: 0,
            num_hangs: 0,
            num_crashes: 0,
        }
    }
}

/// One `StrategyStats` per strategy, indexed by `FuzzType::index`.
#[derive(Clone, Debug)]
pub struct FuzzStats {
    stats: Vec<StrategyStats>,
}

impl View for FuzzStats {
    type V = Seq<StrategyStats>;

    closed spec fn view(&self) -> Seq<StrategyStats> {
        self.stats@
    }
}

impl FuzzStats {
    pub open spec fn wf(&self) -> bool {
        self@.len() == FUZZ_TYPE_NUM
    }

    pub fn new() -> (r: Self)
        ensures
            r.wf(),
            forall|i: int| 0 <= i < FUZZ_TYPE_NUM ==> #[trigger] r@[i] == StrategyStats::zero_spec(),
    {
        let mut stats: Vec<StrategyStats> = Vec::new();
        let mut i: usize = 0;
        while i < FUZZ_TYPE_NUM
            invariant
                i <= FUZZ_TYPE_NUM,
                stats@.len() == i,
                forall|k: int| 0 <= k < i ==> #[trigger] stats@[k] == StrategyStats::zero_spec(),
            decreases FUZZ_TYPE_NUM - i,
        {
            stats.push(StrategyStats::zero());
            i = i + 1;
        }
        FuzzStats { stats }
    }

    pub fn get_mut(&mut self, i: usize) -> (r: &mut StrategyStats)
        requires
            old(self).wf(),
            i < FUZZ_TYPE_NUM,
        ensures
            *r == old(self)@[i as int],
            final(self)@ == old(self)@.update(i as int, *final(r)),
    {
        &mut self.stats[i]
    }

    pub fn get(&self, i: usize) -> (r: &StrategyStats)
        requires
            self.wf(),
            i < FUZZ_TYPE_NUM,
        ensures
            *r == self@[i as int],
    {
        &self.stats[i]
    }

    /// Resets the condition counts of every strategy.
    pub fn clear(&mut self)
        requires
            old(self).wf(),
        ensures
            final(self).wf(),
            forall|i: int|
                0 <= i < FUZZ_TYPE_NUM ==> #[trigger] final(self)@[i] == (StrategyStats {
                    num_conds: 0,
                    active_conds: 0,
                    ..old(self)@[i]
                }),
    {
        let mut i: usize = 0;
        while i < self.stats.len()
            invariant
                i <= self.stats.len() == FUZZ_TYPE_NUM,
                forall|k: int|
                    0 <= k < i ==> #[trigger] self.stats@[k] == (StrategyStats {
                        num_conds: 0,
                        active_conds: 0,
                        ..old(self).stats@[k]
                    }),
                forall|k: int| i <= k < FUZZ_TYPE_NUM ==> #[trigger] self.stats@[k] == old(self).stats@[k],
            decreases self.stats.len() - i,
        {
            let mut s = self.stats[i];
            s.num_conds = 0;
            s.active_conds = 0;
            self.stats.set(i, s);
            i = i + 1;
        }
    }

    /// Counts `cond` under its strategy, as active unless it is done.
    pub fn count(&mut self, cond: &CondStmt)
        requires
            old(self).wf(),
            old(self)@[fuzz_type_of(cond.base).index_spec() as int].num_conds < usize::MAX,
            old(self)@[fuzz_type_of(cond.base).index_spec() as int].active_conds < usize::MAX,
        ensures
            final(self).wf(),
            ({
                let i = fuzz_type_of(cond.base).index_spec() as int;
                let s = old(self)@[i];
                final(self)@ == old(self)@.update(
                    i,
                    StrategyStats {
                        num_conds: (s.num_conds + 1) as usize,
                        active_conds: if cond.base.condition != COND_DONE_ST {
                            (s.active_conds + 1) as usize
                        } else {
                            s.active_conds
                        },
                        ..s
                    },
                )
            }),
    {
        let i = cond.get_fuzz_type().index();
        let mut s = self.stats[i];
        s.num_conds = s.num_conds + 1;
        if !cond.is_done() {
            s.active_conds = s.active_conds + 1;
        }
        self.stats.set(i, s);
    }

    /// More havoc and unclassified conditions than conditions of the
    /// program: the instrumentation likely missed the program's predicates.
    pub fn may_be_model_failure(&self) -> (r: bool)
        requires
            self.wf(),
        ensures
            r == (self@[0].num_conds + 1 < self@[6].num_conds + self@[7].num_conds),
    {
        let explore = self.stats[FuzzType::ExploreFuzz.index()].num_conds as u128;
        let afl = self.stats[FuzzType::AFLFuzz.index()].num_conds as u128;
        let other = self.stats[FuzzType::OtherFuzz.index()].num_conds as u128;
        explore + 1 < afl + other
    }
}

} // verus!
