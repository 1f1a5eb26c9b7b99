//! The condition queue: the smallest priority is served first, and a
//! condition is off the queue while it is being worked on.
use vstd::prelude::*;
use crate::cond_id::CondId;
use crate::cond_stmt::CondStmt;
use crate::qpriority::{inc_spec, init_class, QPriority, DONE_PRIORITY};

verus! {

pub open spec fn id_of(c: CondStmt) -> CondId {
    CondId { cmpid: c.base.cmpid, context: c.base.context, order: c.base.order, op: c.base.op }
}

/// Index `i` holds a smallest priority of `ps`, the first such.
pub open spec fn is_first_min(ps: Seq<u16>, i: int) -> bool {
    &&& 0 <= i < ps.len()
    &&& forall|k: int| 0 <= k < ps.len() ==> ps[i] <= #[trigger] ps[k]
    &&& forall|k: int| 0 <= k < i ==> ps[i] < #[trigger] ps[k]
}

pub struct Depot {
    entries: Vec<(CondStmt, QPriority)>,
    max_priority: u16,
}

impl Depot {
    /// The keys of the queued conditions, in queue order.
    pub closed spec fn ids(&self) -> Seq<CondId> {
        self.entries@.map_values(|e: (CondStmt, QPriority)| id_of(e.0))
    }

    /// The priorities of the queued conditions, in queue order.
    pub closed spec fn prios(&self) -> Seq<u16> {
        self.entries@.map_values(|e: (CondStmt, QPriority)| e.1.0)
    }

    pub closed spec fn max_prio(&self) -> u16 {
        self.max_priority
    }

    /// No key is queued twice.
    pub open spec fn wf(&self) -> bool {
        &&& self.ids().len() == self.prios().len()
        &&& forall|i: int, j: int|
            0 <= i < j < self.ids().len() ==> #[trigger] self.ids()[i] != #[trigger] self.ids()[j]
    }

    pub fn new(max_priority: u16) -> (r: Self)
        ensures
            r.wf(),
            r.ids().len() == 0,
            r.max_prio() == max_priority,
    {
        let d = Depot { entries: Vec::new(), max_priority };
        assert(d.ids() =~= Seq::<CondId>::empty());
        assert(d.prios() =~= Seq::<u16>::empty());
        d
    }

    pub fn len(&self) -> (r: usize)
        ensures
            r == self.ids().len(),
    {
        self.entries.len()
    }

    /// The `i`-th queued condition and its priority.
    pub fn entry(&self, i: usize) -> (r: (&CondStmt, QPriority))
        requires
            i < self.ids().len(),
            self.wf(),
        ensures
            id_of(*r.0) == self.ids()[i as int],
            r.1.0 == self.prios()[i as int],
    {
        (&self.entries[i].0, self.entries[i].1)
    }

    fn find(&self, id: &CondId) -> (r: Option<usize>)
        ensures
            r.is_some() ==> r.unwrap() < self.ids().len() && self.ids()[r.unwrap() as int] == *id,
            r.is_none() ==> forall|k: int| 0 <= k < self.ids().len() ==> self.ids()[k] != *id,
    {
        let mut i: usize = 0;
        while i < self.entries.len()
            invariant
                i <= self.entries.len(),
                self.ids().len() == self.entries.len(),
                forall|k: int| 0 <= k < i ==> self.ids()[k] != *id,
            decreases self.entries.len() - i,
        {
            let eid = self.entries[i].0.get_cond_id();
            assert(self.ids()[i as int] == id_of(self.entries@[i as int].0));
            if eid.cmpid == id.cmpid && eid.context == id.context && eid.order == id.order && eid.op
                == id.op {
                return Some(i);
            }
            i = i + 1;
        }
        None
    }

    /// Queues a condition seen for the first time at the priority of its
    /// class; a condition already queued takes the new taint and speed and
    /// keeps its place and priority.
    pub fn add(&mut self, cond: CondStmt)
        requires
            old(self).wf(),
        ensures
            final(self).wf(),
            final(self).max_prio() == old(self).max_prio(),
            old(self).ids().contains(id_of(cond)) ==> final(self).ids() == old(self).ids()
                && final(self).prios() == old(self).prios(),
            !old(self).ids().contains(id_of(cond)) ==> final(self).ids() == old(self).ids().push(
                id_of(cond),
            ) && final(self).prios() == old(self).prios().push(init_class(cond.base.op)),
    {
        let id = cond.get_cond_id();
        match self.find(&id) {
            Some(i) => {
                let (mut old_cond, p) = self.entries.remove(i);
                let ghost removed = self.entries@;
                if cond.offsets.len() > 0 {
                    old_cond.offsets = cond.offsets;
                    old_cond.offsets_opt = cond.offsets_opt;
                    old_cond.variables = cond.variables;
                }
                old_cond.speed = cond.speed;
                self.entries.insert(i, (old_cond, p));
                assert(self.ids() =~= old(self).ids());
                assert(self.prios() =~= old(self).prios());
            },
            None => {
                let p = QPriority::init(cond.base.op);
                self.entries.push((cond, p));
                assert(self.ids() =~= old(self).ids().push(id));
                assert(self.prios() =~= old(self).prios().push(p.0));
                assert(!old(self).ids().contains(id));
            },
        }
    }

    /// Takes out the first condition of smallest priority; nothing when
    /// the queue is empty or that priority is the terminal one.
    pub fn get_entry(&mut self) -> (r: Option<(CondStmt, QPriority)>)
        requires
            old(self).wf(),
        ensures
            final(self).wf(),
            final(self).max_prio() == old(self).max_prio(),
            r.is_none() ==> final(self).ids() == old(self).ids() && final(self).prios() == old(self).prios()
                && (old(self).prios().len() == 0 || exists|i: int|
                is_first_min(old(self).prios(), i) && old(self).prios()[i] == DONE_PRIORITY),
            r.is_some() ==> exists|i: int|
                #![auto]
                is_first_min(old(self).prios(), i) && old(self).prios()[i] != DONE_PRIORITY
                    && r.unwrap().1.0 == old(self).prios()[i] && id_of(r.unwrap().0) == old(
                    self,
                ).ids()[i] && final(self).ids() == old(self).ids().remove(i) && final(self).prios()
                    == old(self).prios().remove(i),
    {
        if self.entries.len() == 0 {
            return None;
        }
        let mut best: usize = 0;
        let mut i: usize = 1;
        while i < self.entries.len()
            invariant
                1 <= i <= self.entries.len(),
                best < i,
                self.prios().len() == self.entries.len(),
                forall|k: int| 0 <= k < i ==> self.prios()[best as int] <= #[trigger] self.prios()[k],
                forall|k: int| 0 <= k < best ==> self.prios()[best as int] < #[trigger] self.prios()[k],
            decreases self.entries.len() - i,
        {
            assert(self.prios()[i as int] == self.entries@[i as int].1.0);
            assert(self.prios()[best as int] == self.entries@[best as int].1.0);
            if self.entries[i].1.0 < self.entries[best].1.0 {
                best = i;
            }
            i = i + 1;
        }
        assert(is_first_min(self.prios(), best as int));
        assert(self.prios()[best as int] == self.entries@[best as int].1.0);
        if self.entries[best].1.is_done() {
            return None;
        }
        let e = self.entries.remove(best);
        assert(self.ids() =~= old(self).ids().remove(best as int));
        assert(self.prios() =~= old(self).prios().remove(best as int));
        assert forall|a: int, b: int| 0 <= a < b < self.ids().len() implies #[trigger] self.ids()[a]
            != #[trigger] self.ids()[b] by {
            let oa = if a < best { a } else { a + 1 };
            let ob = if b < best { b } else { b + 1 };
            assert(self.ids()[a] == old(self).ids()[oa]);
            assert(self.ids()[b] == old(self).ids()[ob]);
        }
        Some(e)
    }

    /// Puts back a condition taken out by `get_entry` with the priority it
    /// had: a done condition, or one whose priority is spent, is dropped;
    /// any other goes back one round later.
    pub fn update_entry(&mut self, cond: CondStmt, priority: QPriority)
        requires
            old(self).wf(),
            !old(self).ids().contains(id_of(cond)),
        ensures
            final(self).wf(),
            final(self).max_prio() == old(self).max_prio(),
            (cond.base.condition == crate::defs::COND_DONE_ST || inc_spec(priority.0, old(self).max_prio())
                == DONE_PRIORITY) ==> final(self).ids() == old(self).ids() && final(self).prios() == old(
                self,
            ).prios(),
            !(cond.base.condition == crate::defs::COND_DONE_ST || inc_spec(priority.0, old(self).max_prio())
                == DONE_PRIORITY) ==> final(self).ids() == old(self).ids().push(id_of(cond))
                && final(self).prios() == old(self).prios().push(inc_spec(priority.0, old(self).max_prio())),
    {
        if cond.is_done() {
            return;
        }
        let p = priority.inc(cond.base.op, self.max_priority);
        if p.is_done() {
            return;
        }
        let ghost id = id_of(cond);
        self.entries.push((cond, p));
        assert(self.ids() =~= old(self).ids().push(id));
        assert(self.prios() =~= old(self).prios().push(p.0));
    }
}

/// Three queued conditions whose priorities are `m`, `m + 1` and `m + 2`
/// are served one per class in turn: the one served has priority `m`, and
/// after it goes back one round later the queue holds `m + 1`, `m + 2` and
/// `m + 3`, so the next one served is of the next class.
pub proof fn lemma_round_robin(ps: Seq<u16>, i: int, m: u16, max_priority: u16)
    requires
        ps.len() == 3,
        ps[0] != ps[1] && ps[0] != ps[2] && ps[1] != ps[2],
        forall|j: int| 0 <= j < 3 ==> m <= #[trigger] ps[j] <= m + 2,
        m as int + 2 <= max_priority as int,
        m as int + 6 < DONE_PRIORITY as int,
        is_first_min(ps, i),
    ensures
        ps[i] == m,
        ({
            let next = ps.remove(i).push(inc_spec(ps[i], max_priority));
            &&& next.len() == 3
            &&& next[0] != next[1] && next[0] != next[2] && next[1] != next[2]
            &&& forall|j: int| 0 <= j < 3 ==> m + 1 <= #[trigger] next[j] <= m + 3
            &&& forall|j: int| is_first_min(next, j) ==> next[j] == m + 1 && next[j] % 3 == (m + 1) % 3
        }),
{
    assert(ps[0] <= ps[i] || ps[1] <= ps[i] || ps[2] <= ps[i]);
    assert(ps[i] <= ps[0] && ps[i] <= ps[1] && ps[i] <= ps[2]);
    let next = ps.remove(i).push(inc_spec(ps[i], max_priority));
    assert(inc_spec(ps[i], max_priority) == m + 3);
    assert(next.len() == 3);
    if i == 0 {
        assert(next[0] == ps[1] && next[1] == ps[2]);
    } else if i == 1 {
        assert(next[0] == ps[0] && next[1] == ps[2]);
    } else {
        assert(next[0] == ps[0] && next[1] == ps[1]);
    }
    assert(next[2] == m + 3);
    assert forall|j: int| is_first_min(next, j) implies next[j] == m + 1 && next[j] % 3 == (m + 1) % 3 by {
        assert(next[j] <= next[0] && next[j] <= next[1] && next[j] <= next[2]);
    }
}

} // verus!
