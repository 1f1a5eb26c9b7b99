use angora_core::cond_stmt::CondStmt;
use angora_core::cond_stmt_base::CondStmtBase;
use angora_core::defs::{
    COND_AFL_OP, COND_FALSE_ST, COND_ICMP_EQ_OP, COND_ICMP_NE_OP, COND_ICMP_SGT_OP, COND_ICMP_SLT_OP,
    COND_ICMP_UGE_OP, COND_ICMP_UGT_OP, COND_ICMP_ULE_OP, COND_ICMP_ULT_OP, COND_SIGN_MASK,
    COND_SW_OP, COND_TRUE_ST,
};
use angora_core::output::{sub_abs, translate_signed_value, translate_to_i128, CondOutput};

#[test]
fn test_translate_sign() {
    assert_eq!(
        translate_signed_value(0xffffffff80000000, 8),
        0x7fffffff80000000
    );
    assert_eq!(translate_signed_value(255, 1), 127);
}

fn untranslate(t: u64, size: u32) -> u64 {
    let w: u128 = 1u128 << (8 * size);
    ((t as u128 + w / 2) % w) as u64
}

#[test]
fn translate_signed_round_trip_on_boundaries() {
    for size in [1u32, 2, 4, 8] {
        let bits = 8 * size;
        let w: u128 = 1u128 << bits;
        let min: i128 = -((w / 2) as i128);
        let max: i128 = (w / 2) as i128 - 1;
        let vals = [min, min + 1, -1, 0, 1, max - 1, max];
        let mut last: Option<u64> = None;
        for v in vals {
            let raw = (v.rem_euclid(w as i128)) as u64;
            let t = translate_signed_value(raw, size);
            assert_eq!(untranslate(t, size), raw);
            assert_eq!(translate_to_i128(raw, size), v);
            if let Some(prev) = last {
                assert!(prev < t);
            }
            last = Some(t);
        }
    }
}

fn cond(op: u32, condition: u32, size: u32, a: u64, b: u64) -> CondStmtBase {
    CondStmtBase { op, condition, size, arg1: a, arg2: b, ..CondStmtBase::default() }
}

#[test]
fn objective_per_predicate() {
    assert_eq!(cond(COND_ICMP_EQ_OP, COND_FALSE_ST, 4, 10, 3).get_output(), 7);
    assert_eq!(cond(COND_ICMP_NE_OP, COND_FALSE_ST, 4, 3, 3).get_output(), 1);
    assert_eq!(cond(COND_ICMP_NE_OP, COND_FALSE_ST, 4, 4, 3).get_output(), 0);
    assert_eq!(cond(COND_ICMP_UGT_OP, COND_FALSE_ST, 4, 3, 10).get_output(), 8);
    assert_eq!(cond(COND_ICMP_UGE_OP, COND_FALSE_ST, 4, 3, 10).get_output(), 7);
    assert_eq!(cond(COND_ICMP_ULT_OP, COND_FALSE_ST, 4, 10, 3).get_output(), 8);
    assert_eq!(cond(COND_ICMP_ULE_OP, COND_FALSE_ST, 4, 10, 3).get_output(), 7);
    assert_eq!(cond(COND_SW_OP, COND_FALSE_ST, 4, 9, 5).get_output(), 4);
    assert_eq!(cond(COND_AFL_OP, COND_FALSE_ST, 4, 3, 10).get_output(), 7);
}

#[test]
fn objective_flips_a_true_condition() {
    // a == b is true: drive toward a != b, whose objective is 1 while equal.
    assert_eq!(cond(COND_ICMP_EQ_OP, COND_TRUE_ST, 4, 5, 5).get_output(), 1);
    // a > b is true: drive toward a <= b.
    assert_eq!(cond(COND_ICMP_UGT_OP, COND_TRUE_ST, 4, 10, 3).get_output(), 7);
}

#[test]
fn objective_reads_signed_operands() {
    // -1 < 1 as signed bytes: 0xff maps below 0x01.
    let c = cond(COND_ICMP_SLT_OP, COND_FALSE_ST, 1, 0xff, 0x01);
    assert_eq!(c.get_output(), 127 - 129 + 1);
    let c = cond(COND_ICMP_UGT_OP | COND_SIGN_MASK, COND_FALSE_ST, 1, 0xff, 0x01);
    assert_eq!(c.get_output(), 129 - 127 + 1);
    let c = cond(COND_ICMP_SGT_OP, COND_FALSE_ST, 2, 0x0001, 0xffff);
    assert_eq!(c.get_output(), 0x7fff - 0x8001 + 1);
    assert_eq!(sub_abs(-5, 7), 12);
}

#[test]
fn solved_predicate_matrix() {
    let ops = [
        COND_ICMP_EQ_OP,
        COND_ICMP_NE_OP,
        COND_SW_OP,
        COND_ICMP_UGT_OP,
        COND_ICMP_UGE_OP,
        COND_ICMP_ULT_OP,
        COND_ICMP_ULE_OP,
        COND_ICMP_SGT_OP,
        COND_ICMP_SLT_OP,
    ];
    for op in ops {
        for sign in [0u32, COND_SIGN_MASK] {
            let c = CondStmt::from(cond(op | sign, COND_FALSE_ST, 4, 0, 0));
            let exact = op == COND_ICMP_EQ_OP || op == COND_ICMP_NE_OP || op == COND_SW_OP;
            for f in [-2i128, -1, 0, 1, 2] {
                let expected = if exact { f == 0 } else { f <= 0 };
                assert_eq!(c.is_solved(f), expected);
            }
        }
    }
}
