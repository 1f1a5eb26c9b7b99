//! The key under which the queue knows a condition.
use vstd::prelude::*;
use core::cmp::Ordering;
use crate::cond_stmt_base::CondStmtBase;

verus! {

/// Identity of a condition: a branch hit repeatedly along one path is told
/// apart by `order`.
#[derive(Debug, Clone, Copy, Hash, PartialEq, Eq, Ord)]
pub struct CondId {
    pub cmpid: u32,
    pub context: u32,
    pub order: u32,
    pub op: u32,
}

pub open spec fn cmp_u32(a: u32, b: u32) -> Ordering {
    if a < b {
        Ordering::Less
    } else if a > b {
        Ordering::Greater
    } else {
        Ordering::Equal
    }
}

/// Lexicographic comparison on `(cmpid, context, order, op)`.
pub open spec fn cond_id_cmp(a: CondId, b: CondId) -> Ordering {
    if a.cmpid != b.cmpid {
        cmp_u32(a.cmpid, b.cmpid)
    } else if a.context != b.context {
        cmp_u32(a.context, b.context)
    } else if a.order != b.order {
        cmp_u32(a.order, b.order)
    } else {
        cmp_u32(a.op, b.op)
    }
}

/// `a` comes strictly before `b`.
pub open spec fn cond_id_lt(a: CondId, b: CondId) -> bool {
    cond_id_cmp(a, b) == Ordering::Less
}

fn cmp_field(a: u32, b: u32) -> (r: Ordering)
    ensures
        r == cmp_u32(a, b),
{
    if a < b {
        Ordering::Less
    } else if a > b {
        Ordering::Greater
    } else {
        Ordering::Equal
    }
}

impl PartialOrd for CondId {
    fn partial_cmp(&self, other: &Self) -> (r: Option<Ordering>)
        ensures
            r == Some(cond_id_cmp(*self, *other)),
    {
        if self.cmpid != other.cmpid {
            Some(cmp_field(self.cmpid, other.cmpid))
        } else if self.context != other.context {
            Some(cmp_field(self.context, other.context))
        } else if self.order != other.order {
            Some(cmp_field(self.order, other.order))
        } else {
            Some(cmp_field(self.op, other.op))
        }
    }
}

impl vstd::std_specs::cmp::PartialOrdSpecImpl for CondId {
    open spec fn obeys_partial_cmp_spec() -> bool {
        true
    }

    open spec fn partial_cmp_spec(&self, other: &CondId) -> Option<Ordering> {
        Some(cond_id_cmp(*self, *other))
    }
}

impl CondId {
    pub fn new(cmpid: u32, context: u32, order: u32, op: u32) -> (r: Self)
        ensures
            r == (CondId { cmpid, context, order, op }),
    {
        Self { cmpid, context, order, op }
    }

    pub fn from_cond_base(cond: &CondStmtBase) -> (r: Self)
        ensures
            r == (CondId { cmpid: cond.cmpid, context: cond.context, order: cond.order, op: cond.op }),
    {
        Self::new(cond.cmpid, cond.context, cond.order, cond.op)
    }
}

/// The order on condition keys is total: equal exactly on equal keys,
/// antisymmetric, and transitive.
pub proof fn lemma_cond_id_order_total(a: CondId, b: CondId, c: CondId)
    ensures
        (cond_id_cmp(a, b) == Ordering::Equal) <==> a == b,
        cond_id_cmp(a, b) == Ordering::Less <==> cond_id_cmp(b, a) == Ordering::Greater,
        cond_id_lt(a, b) && cond_id_lt(b, c) ==> cond_id_lt(a, c),
        cond_id_lt(a, b) || a == b || cond_id_lt(b, a),
{
}

} // verus!
