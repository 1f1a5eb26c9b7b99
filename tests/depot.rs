use angora_core::cond_stmt::CondStmt;
use angora_core::cond_stmt_base::CondStmtBase;
use angora_core::defs::{COND_AFL_OP, COND_DONE_ST, COND_EXPLOIT_INT_MASK, COND_ICMP_EQ_OP};
use angora_core::depot::Depot;
use angora_core::qpriority::QPriority;

fn cond(cmpid: u32, op: u32) -> CondStmt {
    CondStmt::from(CondStmtBase { cmpid, op, ..CondStmtBase::default() })
}

#[test]
fn three_classes_round_robin() {
    let mut depot = Depot::new(u16::MAX);
    depot.add(cond(1, COND_EXPLOIT_INT_MASK | COND_ICMP_EQ_OP));
    depot.add(cond(2, COND_AFL_OP));
    depot.add(cond(3, COND_ICMP_EQ_OP));
    let mut classes = vec![];
    for _ in 0..9 {
        let (c, p) = depot.get_entry().unwrap();
        classes.push(p.get() % 3);
        depot.update_entry(c, p);
    }
    assert_eq!(classes, vec![0, 1, 2, 0, 1, 2, 0, 1, 2]);
}

#[test]
fn add_is_idempotent_by_id() {
    let mut depot = Depot::new(u16::MAX);
    depot.add(cond(7, COND_ICMP_EQ_OP));
    depot.add(cond(7, COND_ICMP_EQ_OP));
    assert_eq!(depot.len(), 1);
    depot.add(cond(8, COND_ICMP_EQ_OP));
    assert_eq!(depot.len(), 2);
}

#[test]
fn done_conditions_leave_the_queue() {
    let mut depot = Depot::new(u16::MAX);
    depot.add(cond(1, COND_ICMP_EQ_OP));
    depot.add(cond(2, COND_ICMP_EQ_OP));
    let (mut c, p) = depot.get_entry().unwrap();
    assert_eq!(c.base.cmpid, 1);
    c.mark_as_done();
    depot.update_entry(c, p);
    let (c2, p2) = depot.get_entry().unwrap();
    assert_eq!(c2.base.cmpid, 2);
    depot.update_entry(c2, p2);
    let (c3, _) = depot.get_entry().unwrap();
    assert_eq!(c3.base.cmpid, 2);
    assert!(depot.get_entry().is_none());
}

#[test]
fn spent_priority_retires() {
    let mut depot = Depot::new(3);
    depot.add(cond(1, COND_ICMP_EQ_OP));
    let (c, p) = depot.get_entry().unwrap();
    depot.update_entry(c, p);
    let (c, p) = depot.get_entry().unwrap();
    assert_eq!(p.get(), 3);
    depot.update_entry(c, p);
    let (c, p) = depot.get_entry().unwrap();
    assert_eq!(p.get(), 6);
    depot.update_entry(c, p);
    assert!(depot.get_entry().is_none());
    assert_eq!(depot.len(), 0);
    let mut c = cond(9, COND_ICMP_EQ_OP);
    c.base.condition = COND_DONE_ST;
    assert!(c.is_done());
    assert!(QPriority::done().is_done());
}

#[test]
fn entries_can_be_listed() {
    let mut depot = Depot::new(u16::MAX);
    depot.add(cond(5, COND_AFL_OP));
    depot.add(cond(6, COND_ICMP_EQ_OP));
    let (c, p) = depot.entry(1);
    assert_eq!(c.base.cmpid, 6);
    assert_eq!(p.get(), 0);
    assert_eq!(depot.entry(0).1.get(), 1);
}
