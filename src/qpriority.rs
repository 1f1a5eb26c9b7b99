//! Priorities of the condition queue.
//!
//! The `u16` space is split into three residue classes mod 3: `3k` for
//! conditions of the program, `3k + 1` for havoc seeds and `3k + 2` for
//! exploitation conditions. Each visit raises a priority by 3, so every
//! condition of the three classes is tried before any is tried again.
use vstd::prelude::*;
use crate::defs::{COND_AFL_OP, COND_EXPLOIT_MASK};

verus! {

const EXPLORE_INIT_PRIORITY: u16 = 0;
const AFL_INIT_PRIORITY: u16 = 1;
const EXPLOIT_INIT_PRIORITY: u16 = 2;
/// The terminal priority of a retired condition.
pub const DONE_PRIORITY: u16 = 0xffff;

/// Priority of a queued condition: the smallest is served first.
#[derive(Debug, Clone, Copy, PartialEq, Eq)]
pub struct QPriority(pub u16);

/// The class, 0 to 2, that a condition with opcode `op` starts in.
pub open spec fn init_class(op: u32) -> u16 {
    if op == COND_AFL_OP {
        1
    } else if (op & COND_EXPLOIT_MASK) != 0 {
        2
    } else {
        0
    }
}

/// The priority after one more visit.
pub open spec fn inc_spec(p: u16, max_priority: u16) -> u16 {
    if p > max_priority || p as int + 3 >= DONE_PRIORITY {
        DONE_PRIORITY
    } else {
        (p + 3) as u16
    }
}

impl QPriority {
    /// Raises the priority by 3; past `max_priority`, or where the sum would
    /// reach the terminal value, the condition is retired.
    pub fn inc(&self, _op: u32, max_priority: u16) -> (r: Self)
        ensures
            r.0 == inc_spec(self.0, max_priority),
    {
        if self.0 > max_priority || self.0 >= DONE_PRIORITY - 3 {
            Self::done()
        } else {
            QPriority(self.0 + 3)
        }
    }

    pub fn init(op: u32) -> (r: Self)
        ensures
            r.0 == init_class(op),
    {
        if op == COND_AFL_OP {
            Self::afl_init()
        } else if op & COND_EXPLOIT_MASK != 0 {
            Self::exp_init()
        } else {
            Self::base_init()
        }
    }

    fn base_init() -> (r: Self)
        ensures
            r.0 == EXPLORE_INIT_PRIORITY,
    {
        QPriority(EXPLORE_INIT_PRIORITY)
    }

    fn afl_init() -> (r: Self)
        ensures
            r.0 == AFL_INIT_PRIORITY,
    {
        QPriority(AFL_INIT_PRIORITY)
    }

    fn exp_init() -> (r: Self)
        ensures
            r.0 == EXPLOIT_INIT_PRIORITY,
    {
        QPriority(EXPLOIT_INIT_PRIORITY)
    }

    pub fn done() -> (r: Self)
        ensures
            r.0 == DONE_PRIORITY,
    {
        QPriority(DONE_PRIORITY)
    }

    pub fn is_done(&self) -> (r: bool)
        ensures
            r == (self.0 == DONE_PRIORITY),
    {
        self.0 == DONE_PRIORITY
    }

    pub fn get(&self) -> (r: u16)
        ensures
            r == self.0,
    {
        self.0
    }
}

/// A visit keeps a live priority in its residue class.
pub proof fn lemma_inc_keeps_class(p: u16, max_priority: u16)
    requires
        inc_spec(p, max_priority) != DONE_PRIORITY,
    ensures
        inc_spec(p, max_priority) % 3 == p % 3,
        inc_spec(p, max_priority) == p + 3,
{
}

} // verus!
