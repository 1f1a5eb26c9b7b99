//! Layout constants shared with the instrumentation runtime.
use vstd::prelude::*;

verus! {

/// The condition was evaluated to false on the recorded path.
pub const COND_FALSE_ST: u32 = 0;
/// The condition was evaluated to true on the recorded path.
pub const COND_TRUE_ST: u32 = 1;
/// Both sides of the condition have been reached.
pub const COND_DONE_ST: u32 = 2;

/// Bits of `op` that hold the basic predicate opcode.
pub const COND_BASIC_MASK: u32 = 0xff;
/// Set when the operands are compared as signed integers.
pub const COND_SIGN_MASK: u32 = 0x100;
/// Set when the condition is known to be a boolean test.
pub const COND_BOOL_MASK: u32 = 0x200;
/// Bits of `op` that select an exploitation target.
pub const COND_EXPLOIT_MASK: u32 = 0x7000;
/// Exploitation of an integer boundary.
pub const COND_EXPLOIT_INT_MASK: u32 = 0x1000;
/// Exploitation of a memory-size argument.
pub const COND_EXPLOIT_MEM_MASK: u32 = 0x2000;
/// Exploitation of a random-looking value.
pub const COND_EXPLOIT_RAND_MASK: u32 = 0x4000;
/// Set for synthetic conditions that are not predicates of the program.
pub const COND_SPECIAL_MASK: u32 = 0x8000;

/// Last floating-point predicate opcode (`0..=15` compare floats).
pub const COND_FCMP_TRUE: u32 = 15;
pub const COND_ICMP_EQ_OP: u32 = 32;
pub const COND_ICMP_NE_OP: u32 = 33;
pub const COND_ICMP_UGT_OP: u32 = 34;
pub const COND_ICMP_UGE_OP: u32 = 35;
pub const COND_ICMP_ULT_OP: u32 = 36;
pub const COND_ICMP_ULE_OP: u32 = 37;
pub const COND_ICMP_SGT_OP: u32 = 38;
pub const COND_ICMP_SGE_OP: u32 = 39;
pub const COND_ICMP_SLT_OP: u32 = 40;
pub const COND_ICMP_SLE_OP: u32 = 41;
/// A `switch` case, compared for equality.
pub const COND_SW_OP: u32 = 0xff;

/// A call of `memcmp`, `strcmp` and the like.
pub const COND_FN_OP: u32 = 0x8001;
/// A condition on the input length.
pub const COND_LEN_OP: u32 = 0x8002;
/// A seed handed to AFL-style havoc mutation.
pub const COND_AFL_OP: u32 = 0x8003;

/// Called by instrumented code where a branch was unfolded; it does nothing.
pub fn __unfold_branch_fn(_x: u32) {
}

} // verus!
