//! A condition with its taint, its search state and its statistics.
use vstd::prelude::*;
use crate::cond_id::CondId;
use crate::cond_stmt_base::CondStmtBase;
use crate::defs::{
    COND_AFL_OP, COND_BOOL_MASK, COND_DONE_ST, COND_EXPLOIT_INT_MASK, COND_EXPLOIT_MASK,
    COND_EXPLOIT_MEM_MASK, COND_EXPLOIT_RAND_MASK, COND_FN_OP, COND_ICMP_EQ_OP, COND_LEN_OP,
};
use crate::fuzz_type::FuzzType;
use crate::tag::TagSeg;

verus! {

/// Where the search on a condition stands: each state has a time budget,
/// after which the next one is tried.
#[derive(Clone, Copy, Debug, PartialEq, Eq, Structural)]
pub enum CondState {
    OneByte,
    Deterministic,
    Gradient,
    Random,
    Unsolvable,
    Timeout,
}

impl Default for CondState {
    fn default() -> (r: Self)
        ensures
            r == CondState::OneByte,
    {
        CondState::OneByte
    }
}

/// The state after the budget of `s` is spent.
pub open spec fn next_state_spec(s: CondState) -> CondState {
    match s {
        CondState::OneByte => CondState::Deterministic,
        CondState::Deterministic => CondState::Gradient,
        CondState::Gradient => CondState::Random,
        CondState::Random => CondState::Unsolvable,
        CondState::Unsolvable => CondState::Unsolvable,
        CondState::Timeout => CondState::Timeout,
    }
}

impl CondState {
    pub fn is_unsolvable(&self) -> (r: bool)
        ensures
            r == (*self == CondState::Unsolvable),
    {
        *self == CondState::Unsolvable
    }

    pub fn is_timeout(&self) -> (r: bool)
        ensures
            r == (*self == CondState::Timeout),
    {
        *self == CondState::Timeout
    }

    pub fn next(&self) -> (r: CondState)
        ensures
            r == next_state_spec(*self),
    {
        match self {
            CondState::OneByte => CondState::Deterministic,
            CondState::Deterministic => CondState::Gradient,
            CondState::Gradient => CondState::Random,
            CondState::Random => CondState::Unsolvable,
            CondState::Unsolvable => CondState::Unsolvable,
            CondState::Timeout => CondState::Timeout,
        }
    }
}

/// The strategy for a condition with opcode `op`.
pub open spec fn fuzz_type_of(base: CondStmtBase) -> FuzzType {
    if base.op == COND_AFL_OP {
        FuzzType::AFLFuzz
    } else if base.op == COND_LEN_OP {
        FuzzType::LenFuzz
    } else if base.op == COND_FN_OP {
        FuzzType::CmpFnFuzz
    } else if base.explore_spec() {
        FuzzType::ExploreFuzz
    } else if base.exploitable_spec() && (base.op & COND_EXPLOIT_MASK) == COND_EXPLOIT_INT_MASK {
        FuzzType::ExploitIntFuzz
    } else if base.exploitable_spec() && (base.op & COND_EXPLOIT_MASK) == COND_EXPLOIT_MEM_MASK {
        FuzzType::ExploitMemFuzz
    } else if base.exploitable_spec() && (base.op & COND_EXPLOIT_MASK) == COND_EXPLOIT_RAND_MASK {
        FuzzType::ExploitRandFuzz
    } else {
        FuzzType::OtherFuzz
    }
}

/// Solved: an exact zero for (in)equalities, zero or below otherwise.
pub open spec fn solved_spec(base: CondStmtBase, output: int) -> bool {
    if base.strict_equality_spec() {
        output == 0
    } else {
        output <= 0
    }
}

#[derive(Debug, Clone)]
pub struct CondStmt {
    pub base: CondStmtBase,
    pub offsets: Vec<TagSeg>,
    pub offsets_opt: Vec<TagSeg>,
    pub variables: Vec<u8>,
    pub speed: u32,
    /// The objective looked non-convex.
    pub is_desirable: bool,
    pub is_consistent: bool,
    pub fuzz_times: usize,
    pub state_times: usize,
    pub state: CondState,
    pub num_minimal_optima: usize,
    pub linear: bool,
}

impl CondStmt {
    pub fn new() -> (r: Self)
        ensures
            r.base == CondStmtBase::default_spec(),
            r.offsets@.len() == 0,
            r.offsets_opt@.len() == 0,
            r.variables@.len() == 0,
            r.speed == 0,
            r.is_consistent,
            r.is_desirable,
            r.fuzz_times == 0,
            r.state_times == 0,
            r.state == CondState::OneByte,
            r.num_minimal_optima == 0,
            !r.linear,
    {
        CondStmt {
            base: CondStmtBase::zeroed(),
            offsets: Vec::new(),
            offsets_opt: Vec::new(),
            variables: Vec::new(),
            speed: 0,
            is_consistent: true,
            is_desirable: true,
            fuzz_times: 0,
            state_times: 0,
            state: CondState::OneByte,
            num_minimal_optima: 0,
            linear: false,
        }
    }

    pub fn from(cond_base: CondStmtBase) -> (r: Self)
        ensures
            r.base == cond_base,
            r.offsets@.len() == 0,
            r.offsets_opt@.len() == 0,
            r.variables@.len() == 0,
            r.speed == 0,
            r.is_consistent,
            r.is_desirable,
            r.fuzz_times == 0,
            r.state_times == 0,
            r.state == CondState::OneByte,
            r.num_minimal_optima == 0,
            !r.linear,
    {
        let mut cond = Self::new();
        cond.base = cond_base;
        cond
    }

    pub fn get_fuzz_type(&self) -> (r: FuzzType)
        ensures
            r == fuzz_type_of(self.base),
    {
        if self.base.op == COND_AFL_OP {
            FuzzType::AFLFuzz
        } else if self.base.op == COND_LEN_OP {
            FuzzType::LenFuzz
        } else if self.base.op == COND_FN_OP {
            FuzzType::CmpFnFuzz
        } else if self.base.is_explore() {
            FuzzType::ExploreFuzz
        } else if self.base.is_exploitable() && self.base.is_exploit_int() {
            FuzzType::ExploitIntFuzz
        } else if self.base.is_exploitable() && self.base.is_exploit_mem() {
            FuzzType::ExploitMemFuzz
        } else if self.base.is_exploitable() && self.base.is_exploit_rand() {
            FuzzType::ExploitRandFuzz
        } else {
            FuzzType::OtherFuzz
        }
    }

    pub fn get_cond_id(&self) -> (r: CondId)
        ensures
            r == (CondId {
                cmpid: self.base.cmpid,
                context: self.base.context,
                order: self.base.order,
                op: self.base.op,
            }),
    {
        CondId::from_cond_base(&self.base)
    }

    pub fn is_tainted(&self) -> (r: bool)
        ensures
            r == (self.offsets@.len() > 0),
    {
        self.offsets.len() > 0
    }

    /// A boolean test: marked so, or an equality on 0/1 operands whose
    /// objective looked convex.
    pub fn is_bool(&self) -> (r: bool)
        ensures
            r == (((self.base.op & 0xff) == COND_ICMP_EQ_OP && self.base.arg1 <= 1 && self.base.arg2
                <= 1 && !self.is_desirable) || (self.base.op & COND_BOOL_MASK) > 0),
    {
        (self.base.may_be_bool() && !self.is_desirable) || (self.base.op & COND_BOOL_MASK) > 0
    }

    /// Marks the condition done and drops its taint.
    pub fn mark_as_done(&mut self)
        ensures
            final(self).base == (CondStmtBase { condition: COND_DONE_ST, ..old(self).base }),
            final(self).offsets@.len() == 0,
            final(self).offsets_opt@.len() == 0,
            final(self).variables@.len() == 0,
            final(self).state == old(self).state,
            final(self).state_times == old(self).state_times,
            final(self).fuzz_times == old(self).fuzz_times,
    {
        self.base.condition = COND_DONE_ST;
        self.clear();
    }

    pub fn clear(&mut self)
        ensures
            final(self).base == old(self).base,
            final(self).offsets@.len() == 0,
            final(self).offsets_opt@.len() == 0,
            final(self).variables@.len() == 0,
            final(self).state == old(self).state,
            final(self).state_times == old(self).state_times,
            final(self).fuzz_times == old(self).fuzz_times,
    {
        self.offsets = Vec::new();
        self.offsets_opt = Vec::new();
        self.variables = Vec::new();
    }

    pub fn is_discarded(&self) -> (r: bool)
        ensures
            r == (self.base.condition == COND_DONE_ST || self.state == CondState::Unsolvable
                || self.state == CondState::Timeout),
    {
        self.is_done() || self.state.is_unsolvable() || self.state.is_timeout()
    }

    pub fn is_first_time(&self) -> (r: bool)
        ensures
            r == (self.state_times == 1),
    {
        self.state_times == 1
    }

    pub fn is_second_time(&self) -> (r: bool)
        ensures
            r == (self.state_times == 2),
    {
        self.state_times == 2
    }

    pub fn more_than_twice(&self) -> (r: bool)
        ensures
            r == (self.state_times > 2),
    {
        self.state_times > 2
    }

    /// The pseudo-condition under which a seed is handed to havoc mutation.
    pub fn get_afl_cond(id: usize, speed: u32, edge_num: usize) -> (r: Self)
        requires
            id <= u32::MAX,
            edge_num <= u64::MAX,
        ensures
            r.speed == speed,
            r.base == (CondStmtBase {
                op: COND_AFL_OP,
                cmpid: id as u32,
                context: 0,
                order: 0,
                arg1: edge_num as u64,
                ..CondStmtBase::default_spec()
            }),
            r.offsets@.len() == 0,
            r.state == CondState::OneByte,
    {
        let mut afl_cond = Self::new();
        afl_cond.speed = speed;
        afl_cond.base.op = COND_AFL_OP;
        afl_cond.base.cmpid = id as u32;
        afl_cond.base.context = 0;
        afl_cond.base.order = 0;
        afl_cond.base.arg1 = edge_num as u64;
        afl_cond
    }

    pub fn is_done(&self) -> (r: bool)
        ensures
            r == (self.base.condition == COND_DONE_ST),
    {
        self.base.is_done()
    }

    /// Whether objective `output` means the condition is satisfied.
    pub fn is_solved(&self, output: i128) -> (r: bool)
        ensures
            r == solved_spec(self.base, output as int),
    {
        let exact = self.base.is_strict_equality();
        (exact && output == 0) || (!exact && output <= 0)
    }

    /// Gives up on the condition.
    pub fn to_unsolvable(&mut self)
        ensures
            final(self).state == CondState::Unsolvable,
            final(self).state_times == 0,
            final(self).base == old(self).base,
    {
        self.state = CondState::Unsolvable;
        self.state_times = 0;
    }

    /// Moves to the next state once the current one has had its budget.
    pub fn next_state(&mut self, budget: usize)
        ensures
            final(self).base == old(self).base,
            old(self).state_times >= budget ==> final(self).state == next_state_spec(old(self).state)
                && final(self).state_times == 0,
            old(self).state_times < budget ==> final(self).state == old(self).state
                && final(self).state_times == old(self).state_times,
    {
        if self.state_times >= budget {
            self.state = self.state.next();
            self.state_times = 0;
        }
    }
}


/// The search a condition gets on one visit.
#[derive(Clone, Copy, Debug, PartialEq, Eq)]
pub enum Strategy {
    OneByte,
    Deterministic,
    Gradient,
    Exploit,
    Havoc,
    Length,
    CmpFn,
    Skip,
}

pub open spec fn strategy_spec(t: FuzzType, s: CondState) -> Strategy {
    match t {
        FuzzType::ExploreFuzz | FuzzType::ExploitIntFuzz | FuzzType::ExploitMemFuzz => {
            if s == CondState::OneByte {
                Strategy::OneByte
            } else if s == CondState::Deterministic {
                Strategy::Deterministic
            } else {
                Strategy::Gradient
            }
        },
        FuzzType::ExploitRandFuzz => {
            if s == CondState::OneByte {
                Strategy::OneByte
            } else {
                Strategy::Exploit
            }
        },
        FuzzType::AFLFuzz => Strategy::Havoc,
        FuzzType::LenFuzz => Strategy::Length,
        FuzzType::CmpFnFuzz => Strategy::CmpFn,
        FuzzType::OtherFuzz => Strategy::Skip,
    }
}

/// The search for a condition of type `t` in state `s`: conditions of the
/// program and integer or memory exploitation go through one-byte
/// enumeration, then deterministic bit flips, then gradient descent.
pub fn pick_strategy(t: FuzzType, s: CondState) -> (r: Strategy)
    ensures
        r == strategy_spec(t, s),
{
    match t {
        FuzzType::ExploreFuzz | FuzzType::ExploitIntFuzz | FuzzType::ExploitMemFuzz => {
            if s == CondState::OneByte {
                Strategy::OneByte
            } else if s == CondState::Deterministic {
                Strategy::Deterministic
            } else {
                Strategy::Gradient
            }
        },
        FuzzType::ExploitRandFuzz => {
            if s == CondState::OneByte {
                Strategy::OneByte
            } else {
                Strategy::Exploit
            }
        },
        FuzzType::AFLFuzz => Strategy::Havoc,
        FuzzType::LenFuzz => Strategy::Length,
        FuzzType::CmpFnFuzz => Strategy::CmpFn,
        FuzzType::OtherFuzz => Strategy::Skip,
    }
}

} // verus!
