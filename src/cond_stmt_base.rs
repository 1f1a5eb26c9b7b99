//! The fixed-layout record that identifies a condition and carries the
//! operands observed when the target last evaluated it.
use vstd::prelude::*;
use crate::defs::{
    COND_AFL_OP,
    COND_BASIC_MASK,
    COND_DONE_ST,
    COND_EXPLOIT_INT_MASK,
    COND_EXPLOIT_MASK,
    COND_EXPLOIT_MEM_MASK,
    COND_EXPLOIT_RAND_MASK,
    COND_FALSE_ST,
    COND_FCMP_TRUE,
    COND_ICMP_EQ_OP,
    COND_ICMP_NE_OP,
    COND_ICMP_SGT_OP,
    COND_ICMP_SLE_OP,
    COND_SIGN_MASK,
    COND_SPECIAL_MASK,
    COND_SW_OP,
    COND_TRUE_ST,
};

verus! {

/// One condition as written by the instrumentation into shared memory.
#[derive(Debug, Clone, Copy, Default, PartialEq, Eq)]
pub struct CondStmtBase {
    pub cmpid: u32,
    pub context: u32,
    pub order: u32,
    pub belong: u32,
    pub condition: u32,
    pub level: u32,
    pub op: u32,
    pub size: u32,
    pub lb1: u32,
    pub lb2: u32,
    pub arg1: u64,
    pub arg2: u64,
}

impl CondStmtBase {
    /// Neither special nor exploit bits: a predicate of the program itself.
    pub open spec fn explore_spec(&self) -> bool {
        (self.op & COND_SPECIAL_MASK) == 0 && (self.op & COND_EXPLOIT_MASK) == 0
    }

    pub open spec fn exploitable_spec(&self) -> bool {
        (self.op & COND_SPECIAL_MASK) == 0 && (self.op & COND_EXPLOIT_MASK) != 0
    }

    /// The basic opcode, with a `switch` case read as an equality.
    pub open spec fn basic_op_spec(&self) -> u32 {
        if (self.op & COND_BASIC_MASK) == COND_SW_OP {
            COND_ICMP_EQ_OP
        } else {
            self.op & COND_BASIC_MASK
        }
    }

    pub open spec fn signed_spec(&self) -> bool {
        (self.op & COND_SIGN_MASK) > 0 || (COND_ICMP_SGT_OP <= (self.op & COND_BASIC_MASK)
            && (self.op & COND_BASIC_MASK) <= COND_ICMP_SLE_OP)
    }

    /// Equality and inequality are solved only by an exact zero.
    pub open spec fn strict_equality_spec(&self) -> bool {
        self.basic_op_spec() == COND_ICMP_EQ_OP || self.basic_op_spec() == COND_ICMP_NE_OP
    }

    /// The all-zero record.
    pub open spec fn default_spec() -> CondStmtBase {
        CondStmtBase {
            cmpid: 0,
            context: 0,
            order: 0,
            belong: 0,
            condition: 0,
            level: 0,
            op: 0,
            size: 0,
            lb1: 0,
            lb2: 0,
            arg1: 0,
            arg2: 0,
        }
    }

    pub fn zeroed() -> (r: Self)
        ensures
            r == Self::default_spec(),
    {
        CondStmtBase {
            cmpid: 0,
            context: 0,
            order: 0,
            belong: 0,
            condition: 0,
            level: 0,
            op: 0,
            size: 0,
            lb1: 0,
            lb2: 0,
            arg1: 0,
            arg2: 0,
        }
    }

    /// Turns a false condition true and anything else false.
    pub fn flip_condition(&mut self)
        ensures
            final(self).condition == (if old(self).condition == COND_FALSE_ST {
                COND_TRUE_ST
            } else {
                COND_FALSE_ST
            }),
            *final(self) == (CondStmtBase { condition: final(self).condition, ..*old(self) }),
    {
        if self.condition == COND_FALSE_ST {
            self.condition = COND_TRUE_ST;
        } else {
            self.condition = COND_FALSE_ST;
        }
    }

    pub fn is_explore(&self) -> (r: bool)
        ensures
            r == self.explore_spec(),
    {
        (self.op & COND_SPECIAL_MASK) == 0 && (self.op & COND_EXPLOIT_MASK) == 0
    }

    pub fn is_exploitable(&self) -> (r: bool)
        ensures
            r == self.exploitable_spec(),
    {
        (self.op & COND_SPECIAL_MASK) == 0 && (self.op & COND_EXPLOIT_MASK) != 0
    }

    pub fn is_exploit_int(&self) -> (r: bool)
        ensures
            r == ((self.op & COND_EXPLOIT_MASK) == COND_EXPLOIT_INT_MASK),
    {
        (self.op & COND_EXPLOIT_MASK) == COND_EXPLOIT_INT_MASK
    }

    pub fn is_exploit_mem(&self) -> (r: bool)
        ensures
            r == ((self.op & COND_EXPLOIT_MASK) == COND_EXPLOIT_MEM_MASK),
    {
        (self.op & COND_EXPLOIT_MASK) == COND_EXPLOIT_MEM_MASK
    }

    pub fn is_exploit_rand(&self) -> (r: bool)
        ensures
            r == ((self.op & COND_EXPLOIT_MASK) == COND_EXPLOIT_RAND_MASK),
    {
        (self.op & COND_EXPLOIT_MASK) == COND_EXPLOIT_RAND_MASK
    }

    /// Signed when the sign bit is set or the opcode is a signed compare.
    pub fn is_signed(&self) -> (r: bool)
        ensures
            r == self.signed_spec(),
    {
        (self.op & COND_SIGN_MASK) > 0 || ((self.op & COND_BASIC_MASK) >= COND_ICMP_SGT_OP
            && (self.op & COND_BASIC_MASK) <= COND_ICMP_SLE_OP)
    }

    pub fn is_afl(&self) -> (r: bool)
        ensures
            r == (self.op == COND_AFL_OP),
    {
        self.op == COND_AFL_OP
    }

    /// An equality whose two operands are both 0 or 1.
    pub fn may_be_bool(&self) -> (r: bool)
        ensures
            r == ((self.op & 0xff) == COND_ICMP_EQ_OP && self.arg1 <= 1 && self.arg2 <= 1),
    {
        (self.op & 0xff) == COND_ICMP_EQ_OP && self.arg1 <= 1 && self.arg2 <= 1
    }

    pub fn is_float(&self) -> (r: bool)
        ensures
            r == ((self.op & COND_BASIC_MASK) <= COND_FCMP_TRUE),
    {
        (self.op & COND_BASIC_MASK) <= COND_FCMP_TRUE
    }

    pub fn is_switch(&self) -> (r: bool)
        ensures
            r == ((self.op & COND_BASIC_MASK) == COND_SW_OP),
    {
        (self.op & COND_BASIC_MASK) == COND_SW_OP
    }

    pub fn is_done(&self) -> (r: bool)
        ensures
            r == (self.condition == COND_DONE_ST),
    {
        self.condition == COND_DONE_ST
    }

    pub fn is_strict_equality(&self) -> (r: bool)
        ensures
            r == self.strict_equality_spec(),
    {
        let mut op = self.op & COND_BASIC_MASK;
        if op == COND_SW_OP {
            op = COND_ICMP_EQ_OP;
        }
        op == COND_ICMP_EQ_OP || op == COND_ICMP_NE_OP
    }

    /// Conditions that the gradient solver works on: ordinary and
    /// exploitation predicates, except random-value exploitation.
    pub fn is_gd_search(&self) -> (r: bool)
        ensures
            r == (self.op < COND_SPECIAL_MASK && self.op != COND_EXPLOIT_RAND_MASK),
    {
        self.op < COND_SPECIAL_MASK && self.op != COND_EXPLOIT_RAND_MASK
    }
}

} // verus!
