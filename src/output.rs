//! The objective (distance-to-flip) of an evaluated condition.
use vstd::prelude::*;
use crate::cond_stmt_base::CondStmtBase;
use crate::defs::{
    COND_AFL_OP, COND_FN_OP, COND_ICMP_EQ_OP, COND_ICMP_NE_OP, COND_ICMP_SGE_OP, COND_ICMP_SGT_OP,
    COND_ICMP_SLE_OP, COND_ICMP_SLT_OP, COND_ICMP_UGE_OP, COND_ICMP_UGT_OP, COND_ICMP_ULE_OP,
    COND_ICMP_ULT_OP, COND_LEN_OP, COND_TRUE_ST, COND_BASIC_MASK, COND_SW_OP,
};

verus! {

/// Tie-breaker added on strict inequalities.
const EPS: i128 = 1;

/// Number of values of an operand of `size` bytes, for the sizes {1, 2, 4, 8}.
pub open spec fn width_range(size: u32) -> int {
    if size == 1 {
        0x100
    } else if size == 2 {
        0x1_0000
    } else if size == 4 {
        0x1_0000_0000
    } else {
        0x1_0000_0000_0000_0000
    }
}

pub open spec fn is_operand_size(size: u32) -> bool {
    size == 1 || size == 2 || size == 4 || size == 8
}

/// Order-preserving map of a signed operand onto unsigned numbers: the
/// negative half `[MIN, 0)` goes to `[0, 2^(n-1))` and `[0, MAX]` to
/// `[2^(n-1), 2^n)`. Bits above the operand's width are kept on the
/// non-negative side, as the instrumentation hands them over.
pub open spec fn translate_signed_spec(v: u64, size: u32) -> int {
    if is_operand_size(size) {
        let low = v as int % width_range(size);
        let half = width_range(size) / 2;
        if low >= half {
            low - half
        } else {
            v + half
        }
    } else {
        v as int
    }
}

/// Inverse of `translate_signed_spec` on values that fit the operand width.
pub open spec fn untranslate_signed_spec(t: int, size: u32) -> int {
    if is_operand_size(size) {
        (t + width_range(size) / 2) % width_range(size)
    } else {
        t
    }
}

/// The two's-complement reading of the low `size` bytes of `v`.
pub open spec fn signed_value_spec(v: u64, size: u32) -> int {
    if is_operand_size(size) {
        let low = v as int % width_range(size);
        if low >= width_range(size) / 2 {
            low - width_range(size)
        } else {
            low
        }
    } else {
        v as int
    }
}

/// The predicate opposite to `op`; other opcodes stay as they are.
pub open spec fn negated_op(op: u32) -> u32 {
    if op == COND_ICMP_EQ_OP {
        COND_ICMP_NE_OP
    } else if op == COND_ICMP_NE_OP {
        COND_ICMP_EQ_OP
    } else if op == COND_ICMP_UGT_OP {
        COND_ICMP_ULE_OP
    } else if op == COND_ICMP_UGE_OP {
        COND_ICMP_ULT_OP
    } else if op == COND_ICMP_ULT_OP {
        COND_ICMP_UGE_OP
    } else if op == COND_ICMP_ULE_OP {
        COND_ICMP_UGT_OP
    } else if op == COND_ICMP_SGT_OP {
        COND_ICMP_SLE_OP
    } else if op == COND_ICMP_SGE_OP {
        COND_ICMP_SLT_OP
    } else if op == COND_ICMP_SLT_OP {
        COND_ICMP_SGE_OP
    } else if op == COND_ICMP_SLE_OP {
        COND_ICMP_SGT_OP
    } else {
        op
    }
}

/// The predicate to satisfy: a condition of the program that is currently
/// true is driven to its other side.
pub open spec fn target_op(c: CondStmtBase) -> u32 {
    if c.explore_spec() && c.condition == COND_TRUE_ST {
        negated_op(c.basic_op_spec())
    } else {
        c.basic_op_spec()
    }
}

/// An operand as compared: translated when the comparison is signed.
pub open spec fn operand(c: CondStmtBase, v: u64) -> int {
    if c.signed_spec() {
        translate_signed_spec(v, c.size)
    } else {
        v as int
    }
}

pub open spec fn abs_int(x: int) -> int {
    if x < 0 {
        -x
    } else {
        x
    }
}

/// The distance to the target side of `a op b`: the target is reached at
/// zero for (in)equalities and at zero or below otherwise.
pub open spec fn distance(op: u32, a: int, b: int) -> int {
    if op == COND_ICMP_EQ_OP {
        a - b
    } else if op == COND_ICMP_NE_OP {
        if a == b {
            1
        } else {
            0
        }
    } else if op == COND_ICMP_SGT_OP || op == COND_ICMP_UGT_OP {
        b - a + 1
    } else if op == COND_ICMP_UGE_OP || op == COND_ICMP_SGE_OP {
        b - a
    } else if op == COND_ICMP_ULT_OP || op == COND_ICMP_SLT_OP {
        a - b + 1
    } else if op == COND_ICMP_ULE_OP || op == COND_ICMP_SLE_OP {
        a - b
    } else {
        a - b
    }
}

/// The objective of an evaluated condition.
pub open spec fn objective(c: CondStmtBase) -> int {
    let a = operand(c, c.arg1);
    let b = operand(c, c.arg2);
    if c.op == COND_AFL_OP || c.op == COND_FN_OP || c.op == COND_LEN_OP {
        abs_int(a - b)
    } else {
        distance(target_op(c), a, b)
    }
}

/// Objective of a condition record.
pub trait CondOutput {
    spec fn output_spec(&self) -> int;

    fn get_output(&self) -> (r: i128)
        ensures
            r == self.output_spec(),
    ;
}

impl CondOutput for CondStmtBase {
    open spec fn output_spec(&self) -> int {
        objective(*self)
    }

    fn get_output(&self) -> (r: i128) {
        let mut a = self.arg1;
        let mut b = self.arg2;
        let signed = self.is_signed();
        let (a, b) = if signed {
            (translate_signed_value(a, self.size) as i128, translate_signed_value(b, self.size) as i128)
        } else {
            (a as i128, b as i128)
        };
        if self.op == COND_AFL_OP || self.op == COND_FN_OP || self.op == COND_LEN_OP {
            return sub_abs(a, b);
        }
        let mut op = self.op & COND_BASIC_MASK;
        if op == COND_SW_OP {
            op = COND_ICMP_EQ_OP;
        }
        if self.is_explore() && self.condition == COND_TRUE_ST {
            op = negate_op(op);
        }
        if op == COND_ICMP_EQ_OP {
            a - b
        } else if op == COND_ICMP_NE_OP {
            if a == b {
                1
            } else {
                0
            }
        } else if op == COND_ICMP_SGT_OP || op == COND_ICMP_UGT_OP {
            b - a + EPS
        } else if op == COND_ICMP_UGE_OP || op == COND_ICMP_SGE_OP {
            b - a
        } else if op == COND_ICMP_ULT_OP || op == COND_ICMP_SLT_OP {
            a - b + EPS
        } else {
            a - b
        }
    }
}

fn negate_op(op: u32) -> (r: u32)
    ensures
        r == negated_op(op),
{
    if op == COND_ICMP_EQ_OP {
        COND_ICMP_NE_OP
    } else if op == COND_ICMP_NE_OP {
        COND_ICMP_EQ_OP
    } else if op == COND_ICMP_UGT_OP {
        COND_ICMP_ULE_OP
    } else if op == COND_ICMP_UGE_OP {
        COND_ICMP_ULT_OP
    } else if op == COND_ICMP_ULT_OP {
        COND_ICMP_UGE_OP
    } else if op == COND_ICMP_ULE_OP {
        COND_ICMP_UGT_OP
    } else if op == COND_ICMP_SGT_OP {
        COND_ICMP_SLE_OP
    } else if op == COND_ICMP_SGE_OP {
        COND_ICMP_SLT_OP
    } else if op == COND_ICMP_SLT_OP {
        COND_ICMP_SGE_OP
    } else if op == COND_ICMP_SLE_OP {
        COND_ICMP_SGT_OP
    } else {
        op
    }
}

/// `|a - b|` of two operands read from 64-bit registers.
pub fn sub_abs(arg1: i128, arg2: i128) -> (r: i128)
    requires
        -0x1_0000_0000_0000_0000 < arg1 < 0x2_0000_0000_0000_0000,
        -0x1_0000_0000_0000_0000 < arg2 < 0x2_0000_0000_0000_0000,
    ensures
        r == abs_int(arg1 - arg2),
{
    if arg1 >= arg2 {
        arg1 - arg2
    } else {
        arg2 - arg1
    }
}

/// The two's-complement value of the low `size` bytes of `v`; other sizes
/// read `v` as unsigned.
pub fn translate_to_i128(v: u64, size: u32) -> (r: i128)
    ensures
        r == signed_value_spec(v, size),
{
    if !(size == 1 || size == 2 || size == 4 || size == 8) {
        return v as i128;
    }
    let range: u128 = if size == 1 {
        0x100
    } else if size == 2 {
        0x1_0000
    } else if size == 4 {
        0x1_0000_0000
    } else {
        0x1_0000_0000_0000_0000
    };
    let low = (v as u128) % range;
    if low >= range / 2 {
        low as i128 - range as i128
    } else {
        low as i128
    }
}

/// Maps a signed operand onto an unsigned number that keeps its order.
pub fn translate_signed_value(v: u64, size: u32) -> (r: u64)
    ensures
        r == translate_signed_spec(v, size),
{
    if size == 1 {
        let low = v % 0x100;
        if low >= 0x80 {
            low - 0x80
        } else {
            assert(v % 0x100 < 0x80 ==> v < 0xffff_ffff_ffff_ff80) by (bit_vector);
            v + 0x80
        }
    } else if size == 2 {
        let low = v % 0x1_0000;
        if low >= 0x8000 {
            low - 0x8000
        } else {
            assert(v % 0x1_0000 < 0x8000 ==> v < 0xffff_ffff_ffff_8000) by (bit_vector);
            v + 0x8000
        }
    } else if size == 4 {
        let low = v % 0x1_0000_0000;
        if low >= 0x8000_0000 {
            low - 0x8000_0000
        } else {
            assert(v % 0x1_0000_0000 < 0x8000_0000 ==> v < 0xffff_ffff_8000_0000)
                by (bit_vector);
            v + 0x8000_0000
        }
    } else if size == 8 {
        if v >= 0x8000_0000_0000_0000 {
            v - 0x8000_0000_0000_0000
        } else {
            v + 0x8000_0000_0000_0000
        }
    } else {
        v
    }
}

/// Signed translation followed by its inverse gives back every operand
/// value that fits the operand's width.
pub proof fn lemma_translate_signed_round_trip(v: u64, size: u32)
    requires
        is_operand_size(size),
        (v as int) < width_range(size),
    ensures
        untranslate_signed_spec(translate_signed_spec(v, size), size) == v,
        0 <= translate_signed_spec(v, size) < width_range(size),
{
    let w = width_range(size);
    assert(v as int % w == v as int) by {
        vstd::arithmetic::div_mod::lemma_small_mod(v as nat, w as nat);
    }
    let t = translate_signed_spec(v, size);
    if v as int >= w / 2 {
        assert(t + w / 2 == v);
        vstd::arithmetic::div_mod::lemma_small_mod(v as nat, w as nat);
    } else {
        assert(t + w / 2 == v + w);
        vstd::arithmetic::div_mod::lemma_mod_add_multiples_vanish(v as int, w);
        vstd::arithmetic::div_mod::lemma_small_mod(v as nat, w as nat);
    }
}

} // verus!
