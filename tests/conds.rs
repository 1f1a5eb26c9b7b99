use angora_core::cond_id::CondId;
use angora_core::cond_stmt::{pick_strategy, CondState, CondStmt, Strategy};
use angora_core::cond_stmt_base::CondStmtBase;
use angora_core::config::FuzzerConfig;
use angora_core::defs::{
    COND_AFL_OP, COND_BOOL_MASK, COND_DONE_ST, COND_EXPLOIT_INT_MASK, COND_EXPLOIT_MEM_MASK,
    COND_EXPLOIT_RAND_MASK, COND_FALSE_ST, COND_FCMP_TRUE, COND_FN_OP, COND_ICMP_EQ_OP,
    COND_ICMP_NE_OP, COND_ICMP_SGT_OP, COND_ICMP_SLE_OP, COND_ICMP_UGT_OP, COND_LEN_OP,
    COND_SIGN_MASK, COND_SW_OP, COND_TRUE_ST,
};
use angora_core::fuzz_type::{get_fuzz_type_name, FuzzType};
use angora_core::qpriority::QPriority;
use angora_core::sign::{Sign, SignInfo};
use angora_core::stats::FuzzStats;
use std::cmp::Ordering;

fn base(op: u32) -> CondStmtBase {
    CondStmtBase { op, ..CondStmtBase::default() }
}

#[test]
fn predicate_masks() {
    assert!(base(COND_ICMP_EQ_OP).is_explore());
    assert!(!base(COND_ICMP_EQ_OP).is_exploitable());
    assert!(base(COND_EXPLOIT_INT_MASK | COND_ICMP_EQ_OP).is_exploitable());
    assert!(base(COND_EXPLOIT_INT_MASK).is_exploit_int());
    assert!(base(COND_EXPLOIT_MEM_MASK).is_exploit_mem());
    assert!(base(COND_EXPLOIT_RAND_MASK).is_exploit_rand());
    assert!(base(COND_ICMP_SGT_OP).is_signed());
    assert!(base(COND_ICMP_SLE_OP).is_signed());
    assert!(base(COND_ICMP_UGT_OP | COND_SIGN_MASK).is_signed());
    assert!(!base(COND_ICMP_UGT_OP).is_signed());
    assert!(base(COND_AFL_OP).is_afl());
    assert!(base(COND_FCMP_TRUE).is_float());
    assert!(base(COND_SW_OP).is_switch());
    assert!(base(COND_SW_OP).is_strict_equality());
    assert!(base(COND_ICMP_NE_OP).is_strict_equality());
    assert!(!base(COND_ICMP_UGT_OP).is_strict_equality());
    assert!(base(COND_ICMP_UGT_OP).is_gd_search());
    assert!(!base(COND_EXPLOIT_RAND_MASK).is_gd_search());
    assert!(!base(COND_FN_OP).is_gd_search());
    let mut b = CondStmtBase { op: COND_ICMP_EQ_OP, arg1: 1, arg2: 0, ..CondStmtBase::default() };
    assert!(b.may_be_bool());
    b.flip_condition();
    assert_eq!(b.condition, COND_TRUE_ST);
    b.flip_condition();
    assert_eq!(b.condition, COND_FALSE_ST);
    b.condition = COND_DONE_ST;
    assert!(b.is_done());
}

#[test]
fn cond_id_is_lexicographic() {
    let a = CondId::new(1, 5, 5, 5);
    let b = CondId::new(2, 0, 0, 0);
    let c = CondId::new(2, 0, 1, 0);
    let d = CondId::new(2, 0, 1, 3);
    assert_eq!(a.partial_cmp(&b), Some(Ordering::Less));
    assert_eq!(b.partial_cmp(&c), Some(Ordering::Less));
    assert_eq!(d.partial_cmp(&c), Some(Ordering::Greater));
    assert_eq!(d.partial_cmp(&d), Some(Ordering::Equal));
    let mut v = vec![d, b, a, c];
    v.sort();
    assert_eq!(v, vec![a, b, c, d]);
    assert_eq!(CondId::from_cond_base(&base(7)), CondId::new(0, 0, 0, 7));
}

#[test]
fn fuzz_type_dispatch() {
    assert!(matches!(CondStmt::from(base(COND_AFL_OP)).get_fuzz_type(), FuzzType::AFLFuzz));
    assert!(matches!(CondStmt::from(base(COND_LEN_OP)).get_fuzz_type(), FuzzType::LenFuzz));
    assert!(matches!(CondStmt::from(base(COND_FN_OP)).get_fuzz_type(), FuzzType::CmpFnFuzz));
    assert!(matches!(CondStmt::from(base(COND_ICMP_EQ_OP)).get_fuzz_type(), FuzzType::ExploreFuzz));
    assert!(matches!(
        CondStmt::from(base(COND_EXPLOIT_MEM_MASK)).get_fuzz_type(),
        FuzzType::ExploitMemFuzz
    ));
    assert_eq!(FuzzType::AFLFuzz.index(), 6);
    assert_eq!(get_fuzz_type_name(0), "Explore");
    assert_eq!(get_fuzz_type_name(7), "Other");
}

#[test]
fn cond_stmt_lifecycle() {
    let mut c = CondStmt::get_afl_cond(4, 9, 12);
    assert_eq!(c.base.op, COND_AFL_OP);
    assert_eq!(c.base.arg1, 12);
    assert!(!c.is_tainted());
    c.state_times = 4;
    c.next_state(4);
    assert_eq!(c.state, CondState::Deterministic);
    assert_eq!(c.state_times, 0);
    c.state_times = 1;
    assert!(c.is_first_time());
    c.to_unsolvable();
    assert!(c.is_discarded());
    let mut b = CondStmt::from(CondStmtBase { op: COND_BOOL_MASK | COND_ICMP_EQ_OP, ..CondStmtBase::default() });
    assert!(b.is_bool());
    b.mark_as_done();
    assert!(b.is_done());
}

#[test]
fn priority_classes() {
    assert_eq!(QPriority::init(COND_ICMP_EQ_OP).get(), 0);
    assert_eq!(QPriority::init(COND_AFL_OP).get(), 1);
    assert_eq!(QPriority::init(COND_EXPLOIT_INT_MASK).get(), 2);
    assert_eq!(QPriority(4).inc(0, 10).get(), 7);
    assert!(QPriority(11).inc(0, 10).is_done());
    assert!(QPriority(65533).inc(0, u16::MAX).is_done());
}

#[test]
fn sign_probability() {
    let s = SignInfo::new(Sign::Signed, Sign::Signed, Sign::Signed);
    assert!(s.get_concensus_sign());
    let u = SignInfo::from_static_sign(false);
    assert!(!u.get_concensus_sign());
    let mixed = SignInfo::new(Sign::Unsigned, Sign::Signed, Sign::Unknown);
    assert_eq!((mixed.prob_num, mixed.prob_den), (2, 3));
    assert!(mixed.get_concensus_sign());
    let agree = SignInfo::new(Sign::Unsigned, Sign::Signed, Sign::Signed);
    assert_eq!((agree.prob_num, agree.prob_den), (19, 20));
    assert!(agree.get_random_sign(18));
    assert!(!agree.get_random_sign(19));
    let mut upd = SignInfo::from_static_sign(true);
    upd.update_dyn_sign(Sign::Unsigned, Sign::Unsigned);
    assert_eq!((upd.prob_num, upd.prob_den), (1, 20));
    assert_eq!(Sign::Unknown.to_string(), "X");
}

#[test]
fn stats_counting() {
    let mut st = FuzzStats::new();
    let c = CondStmt::from(base(COND_AFL_OP));
    st.count(&c);
    st.count(&c);
    assert_eq!(st.get(6).num_conds, 2);
    assert_eq!(st.get(6).active_conds, 2);
    assert!(st.may_be_model_failure());
    st.get_mut(0).num_conds = 5;
    assert!(!st.may_be_model_failure());
    st.clear();
    assert_eq!(st.get(0).num_conds, 0);
}

#[test]
fn config_builder() {
    let mut cfg = FuzzerConfig::new();
    assert!(cfg.enable_afl());
    assert_eq!(cfg.max_priority(), u16::MAX);
    cfg.set_enable_afl(false).set_max_priority(30).set_assume_be(true);
    assert!(!cfg.enable_afl());
    assert_eq!(cfg.max_priority(), 30);
    assert!(cfg.assume_be());
    assert!(cfg.order());
    assert!(!cfg.belong());
}

#[test]
fn strategy_by_type_and_state() {
    assert_eq!(pick_strategy(FuzzType::ExploreFuzz, CondState::OneByte), Strategy::OneByte);
    assert_eq!(pick_strategy(FuzzType::ExploitIntFuzz, CondState::Deterministic), Strategy::Deterministic);
    assert_eq!(pick_strategy(FuzzType::ExploitMemFuzz, CondState::Random), Strategy::Gradient);
    assert_eq!(pick_strategy(FuzzType::ExploitRandFuzz, CondState::Gradient), Strategy::Exploit);
    assert_eq!(pick_strategy(FuzzType::AFLFuzz, CondState::OneByte), Strategy::Havoc);
    assert_eq!(pick_strategy(FuzzType::LenFuzz, CondState::OneByte), Strategy::Length);
    assert_eq!(pick_strategy(FuzzType::CmpFnFuzz, CondState::OneByte), Strategy::CmpFn);
    assert_eq!(pick_strategy(FuzzType::OtherFuzz, CondState::OneByte), Strategy::Skip);
    angora_core::defs::__unfold_branch_fn(3);
}
