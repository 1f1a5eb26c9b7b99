//! The branch map: bucketed hit counts per edge and novelty detection.
use vstd::prelude::*;
use crate::config::BRANCHES_SIZE;

verus! {

/// How a run of the target ended.
#[derive(Clone, Copy, Debug, PartialEq, Eq, Structural)]
pub enum StatusType {
    Normal,
    Timeout,
    Crash,
    Skip,
    Error,
}

/// The bucket of a hit count, as a bit flag: `0, 1, 2, 3, 4-7, 8-15,
/// 16-31, 32-127, 128+` map to `0, 1, 2, 4, 8, 16, 32, 64, 128`.
pub open spec fn bucket(c: u8) -> u8 {
    if c == 0 {
        0
    } else if c == 1 {
        1
    } else if c == 2 {
        2
    } else if c == 3 {
        4
    } else if c < 8 {
        8
    } else if c < 16 {
        16
    } else if c < 32 {
        32
    } else if c < 128 {
        64
    } else {
        128
    }
}

/// The bucket of a hit count.
pub fn count_lookup(c: u8) -> (r: u8)
    ensures
        r == bucket(c),
{
    if c == 0 {
        0
    } else if c == 1 {
        1
    } else if c == 2 {
        2
    } else if c == 3 {
        4
    } else if c < 8 {
        8
    } else if c < 16 {
        16
    } else if c < 32 {
        32
    } else if c < 128 {
        64
    } else {
        128
    }
}

/// More hits never fall in a lower bucket.
pub proof fn lemma_bucket_monotonic(x: u8, y: u8)
    requires
        x <= y,
    ensures
        bucket(x) <= bucket(y),
{
}

/// A 16-bit hit counter clamped to 255.
pub open spec fn clamp_count(v: u16) -> u8 {
    if v > 255 {
        255
    } else {
        v as u8
    }
}

/// The edges hit in `table`, in order, each with the bucket of its count.
pub open spec fn path_of(table: Seq<u16>) -> Seq<(usize, u8)>
    decreases table.len(),
{
    if table.len() == 0 {
        Seq::empty()
    } else {
        let i = (table.len() - 1) as int;
        path_of(table.drop_last()) + if table[i] > 0 {
            seq![(i as usize, bucket(clamp_count(table[i])))]
        } else {
            Seq::empty()
        }
    }
}

/// Edge indices strictly increase and lie below `len`.
pub open spec fn path_ok(path: Seq<(usize, u8)>, len: nat) -> bool {
    &&& forall|j: int| 0 <= j < path.len() ==> (#[trigger] path[j]).0 < len
    &&& forall|i: int, j: int| 0 <= i < j < path.len() ==> (#[trigger] path[i]).0 < (#[trigger] path[j]).0
}

proof fn lemma_path_of_ok(table: Seq<u16>)
    requires
        table.len() <= usize::MAX,
    ensures
        path_ok(path_of(table), table.len()),
        forall|j: int| 0 <= j < path_of(table).len() ==> (#[trigger] path_of(table)[j]).1 != 0,
    decreases table.len(),
{
    if table.len() > 0 {
        let t = table.drop_last();
        lemma_path_of_ok(t);
        let p = path_of(t);
        let q = path_of(table);
        assert forall|j: int| 0 <= j < q.len() implies (#[trigger] q[j]).0 < table.len() && q[j].1 != 0 by {
            if j < p.len() {
                assert(q[j] == p[j]);
            }
        }
        assert forall|a: int, b: int| 0 <= a < b < q.len() implies (#[trigger] q[a]).0 < (#[trigger] q[b]).0 by {
            assert(q[a] == p[a]);
            assert(p[a].0 < t.len());
            if b < p.len() {
                assert(q[b] == p[b]);
            } else {
                assert(q[b].0 == table.len() - 1);
            }
        }
    }
}

/// The edges hit in a branch table, each with the bucket of its count.
pub fn get_path(table: &Vec<u16>) -> (r: Vec<(usize, u8)>)
    ensures
        r@ == path_of(table@),
        path_ok(r@, table@.len()),
{
    let mut path: Vec<(usize, u8)> = Vec::new();
    let mut i: usize = 0;
    while i < table.len()
        invariant
            i <= table.len(),
            path@ == path_of(table@.subrange(0, i as int)),
        decreases table.len() - i,
    {
        let v = table[i];
        assert(table@.subrange(0, i + 1).drop_last() =~= table@.subrange(0, i as int));
        if v > 0 {
            let c: u8 = if v > 255 {
                255
            } else {
                v as u8
            };
            path.push((i, count_lookup(c)));
        }
        i = i + 1;
    }
    assert(table@.subrange(0, i as int) =~= table@);
    proof {
        assert(table@.len() == table.len());
        lemma_path_of_ok(table@);
    }
    path
}

/// Some hit's bucket has a bit that `map` still marks as unseen.
pub open spec fn is_novel(map: Seq<u8>, path: Seq<(usize, u8)>) -> bool {
    exists|j: int| 0 <= j < path.len() && (#[trigger] path[j]).1 & map[path[j].0 as int] != 0
}

/// Number of hit cells that no run has touched yet (still 255).
pub open spec fn count_new(map: Seq<u8>, path: Seq<(usize, u8)>) -> nat
    decreases path.len(),
{
    if path.len() == 0 {
        0
    } else {
        count_new(map, path.drop_last()) + if map[path.last().0 as int] == 255 {
            1nat
        } else {
            0nat
        }
    }
}

/// `map` with the bits of each hit's bucket cleared.
pub open spec fn cleared(map: Seq<u8>, path: Seq<(usize, u8)>) -> Seq<u8>
    decreases path.len(),
{
    if path.len() == 0 {
        map
    } else {
        let (i, b) = path.last();
        cleared(map, path.drop_last()).update(i as int, map[i as int] & !b)
    }
}

proof fn lemma_cleared_untouched(map: Seq<u8>, path: Seq<(usize, u8)>, k: int)
    requires
        path_ok(path, map.len()),
        forall|j: int| 0 <= j < path.len() ==> (#[trigger] path[j]).0 != k,
    ensures
        cleared(map, path).len() == map.len(),
        0 <= k < map.len() ==> cleared(map, path)[k] == map[k],
    decreases path.len(),
{
    if path.len() > 0 {
        assert(path.last() == path[path.len() - 1]);
        lemma_cleared_untouched(map, path.drop_last(), k);
        lemma_cleared_len(map, path.drop_last());
    }
}

proof fn lemma_cleared_len(map: Seq<u8>, path: Seq<(usize, u8)>)
    requires
        path_ok(path, map.len()),
    ensures
        cleared(map, path).len() == map.len(),
    decreases path.len(),
{
    if path.len() > 0 {
        assert(path.last() == path[path.len() - 1]);
        lemma_cleared_len(map, path.drop_last());
    }
}

proof fn lemma_cleared_at(map: Seq<u8>, path: Seq<(usize, u8)>, j: int)
    requires
        path_ok(path, map.len()),
        0 <= j < path.len(),
    ensures
        cleared(map, path)[path[j].0 as int] == map[path[j].0 as int] & !path[j].1,
    decreases path.len(),
{
    lemma_cleared_len(map, path.drop_last());
    if j < path.len() - 1 {
        assert(path.drop_last()[j] == path[j]);
        lemma_cleared_at(map, path.drop_last(), j);
        assert(path[j].0 < path[path.len() - 1].0);
    }
}

/// Hit counts seen so far, per cell as bits still unseen: a fresh cell is
/// 255 and each bucket that a run reaches clears its bit.
#[derive(Debug)]
pub struct Trace {
    inner: Vec<u8>,
    top: Vec<u16>,
}

impl View for Trace {
    type V = Seq<u8>;

    closed spec fn view(&self) -> Seq<u8> {
        self.inner@
    }
}

impl Trace {
    pub closed spec fn tops(&self) -> Seq<u16> {
        self.top@
    }

    /// `other` adds nothing to `self`: each cell of `other` has only bits
    /// that `self` has, and no top count above `self`'s.
    pub fn covers(&self, other: &Trace) -> (r: bool)
        requires
            self@.len() == other@.len(),
            self.tops().len() == other.tops().len(),
        ensures
            r == ((forall|i: int| 0 <= i < self@.len() ==> #[trigger] self@[i] == self@[i] | other@[i])
                && (forall|i: int| 0 <= i < self.tops().len() ==> #[trigger] self.tops()[i] >= other.tops()[i])),
    {
        let mut i: usize = 0;
        while i < self.inner.len()
            invariant
                i <= self.inner.len() == other.inner.len(),
                forall|k: int| 0 <= k < i ==> #[trigger] self@[k] == self@[k] | other@[k],
            decreases self.inner.len() - i,
        {
            let x = self.inner[i];
            if x != x | other.inner[i] {
                assert(!(self@[i as int] == self@[i as int] | other@[i as int]));
                return false;
            }
            i = i + 1;
        }
        let mut j: usize = 0;
        while j < self.top.len()
            invariant
                j <= self.top.len() == other.top.len(),
                forall|k: int| 0 <= k < self@.len() ==> #[trigger] self@[k] == self@[k] | other@[k],
                forall|k: int| 0 <= k < j ==> #[trigger] self.tops()[k] >= other.tops()[k],
            decreases self.top.len() - j,
        {
            if self.top[j] < other.top[j] {
                assert(!(self.tops()[j as int] >= other.tops()[j as int]));
                return false;
            }
            j = j + 1;
        }
        true
    }

    pub fn empty() -> (r: Self)
        ensures
            r@.len() == 0,
    {
        Trace { inner: Vec::new(), top: Vec::new() }
    }

    pub fn len(&self) -> (r: usize)
        ensures
            r == self@.len(),
    {
        self.inner.len()
    }

    /// The unseen bits of cell `i`.
    pub fn get(&self, i: usize) -> (r: u8)
        requires
            i < self@.len(),
        ensures
            r == self@[i as int],
    {
        self.inner[i]
    }

    /// Grows with fresh cells or cuts to `new_len` cells.
    pub fn resize(&mut self, new_len: usize)
        ensures
            final(self)@ == (if new_len <= old(self)@.len() {
                old(self)@.subrange(0, new_len as int)
            } else {
                old(self)@ + Seq::new((new_len - old(self)@.len()) as nat, |k: int| 255u8)
            }),
    {
        if new_len <= self.top.len() {
            self.top.truncate(new_len);
        } else {
            let mut k: usize = self.top.len();
            while k < new_len
                invariant
                    k <= new_len,
                    self.inner@ == old(self).inner@,
                decreases new_len - k,
            {
                self.top.push(255u16);
                k = k + 1;
            }
        }
        if new_len <= self.inner.len() {
            self.inner.truncate(new_len);
        } else {
            let ghost before = self.inner@;
            let start = self.inner.len();
            let mut k: usize = start;
            while k < new_len
                invariant
                    start <= k <= new_len,
                    start == before.len(),
                    self.inner@ =~= before + Seq::new((k - start) as nat, |j: int| 255u8),
                decreases new_len - k,
            {
                self.inner.push(255u8);
                k = k + 1;
                assert(self.inner@ =~= before + Seq::new((k - start) as nat, |j: int| 255u8));
            }
        }
    }

    /// Records the hits of `path`: clears the bits of their buckets and
    /// returns whether any bit was still unseen, and how many hit cells
    /// were fresh.
    pub fn merge_path(&mut self, path: &Vec<(usize, u8)>) -> (r: (bool, usize))
        requires
            path_ok(path@, old(self)@.len()),
        ensures
            r.0 == is_novel(old(self)@, path@),
            r.1 == count_new(old(self)@, path@),
            final(self)@ == cleared(old(self)@, path@),
    {
        let ghost g = self.inner@;
        let mut novel = false;
        let mut num_new: usize = 0;
        let mut j: usize = 0;
        while j < path.len()
            invariant
                j <= path.len(),
                path_ok(path@, g.len()),
                self.inner@ == cleared(g, path@.subrange(0, j as int)),
                num_new == count_new(g, path@.subrange(0, j as int)),
                num_new <= j,
                novel == is_novel(g, path@.subrange(0, j as int)),
            decreases path.len() - j,
        {
            let (idx, b) = path[j];
            let ghost pre = path@.subrange(0, j as int);
            let ghost pre1 = path@.subrange(0, j + 1);
            assert(pre1.drop_last() =~= pre);
            assert(pre1.last() == path@[j as int]);
            proof {
                assert forall|i: int| 0 <= i < pre.len() implies (#[trigger] pre[i]).0 != idx by {
                    assert(pre[i] == path@[i]);
                }
                lemma_cleared_untouched(g, pre, idx as int);
            }
            let gv = self.inner[idx];
            assert(gv == g[idx as int]);
            if gv == 255 {
                num_new = num_new + 1;
            }
            if b & gv != 0 {
                novel = true;
                self.inner.set(idx, gv & !b);
            } else {
                assert(b & gv == 0 ==> gv & !b == gv) by (bit_vector);
                self.inner.set(idx, gv);
            }
            proof {
                if novel {
                    if b & gv != 0 {
                        assert(pre1[j as int] == path@[j as int]);
                    } else {
                        let w = choose|w: int| 0 <= w < pre.len() && (#[trigger] pre[w]).1 & g[pre[w].0 as int] != 0;
                        assert(pre1[w] == pre[w]);
                    }
                } else {
                    assert forall|w: int| 0 <= w < pre1.len() implies !((#[trigger] pre1[w]).1 & g[pre1[w].0 as int] != 0) by {
                        if w < pre.len() {
                            assert(pre1[w] == pre[w]);
                        }
                    }
                }
            }
            j = j + 1;
        }
        assert(path@.subrange(0, j as int) =~= path@);
        (novel, num_new)
    }
}

/// Merging the same hits a second time finds nothing novel and leaves the
/// map as the first merge left it.
pub proof fn lemma_novelty_idempotent(map: Seq<u8>, path: Seq<(usize, u8)>)
    requires
        path_ok(path, map.len()),
    ensures
        !is_novel(cleared(map, path), path),
        cleared(cleared(map, path), path) == cleared(map, path),
{
    let m1 = cleared(map, path);
    lemma_cleared_len(map, path);
    assert forall|j: int| 0 <= j < path.len() implies !((#[trigger] path[j]).1 & m1[path[j].0 as int] != 0) by {
        lemma_cleared_at(map, path, j);
        let g = map[path[j].0 as int];
        let b = path[j].1;
        assert(b & (g & !b) == 0) by (bit_vector);
    }
    lemma_cleared_len(m1, path);
    assert forall|k: int| 0 <= k < m1.len() implies #[trigger] cleared(m1, path)[k] == m1[k] by {
        if exists|j: int| 0 <= j < path.len() && (#[trigger] path[j]).0 == k {
            let j = choose|j: int| 0 <= j < path.len() && (#[trigger] path[j]).0 == k;
            lemma_cleared_at(m1, path, j);
            lemma_cleared_at(map, path, j);
            let g = map[k];
            let b = path[j].1;
            assert((g & !b) & !b == g & !b) by (bit_vector);
        } else {
            lemma_cleared_untouched(m1, path, k);
        }
    }
    assert(cleared(m1, path) =~= m1);
}

/// The three global maps (normal runs, timeouts, crashes) and the count of
/// cells that normal runs have reached.
#[derive(Debug)]
pub struct GlobalBranches {
    pub virgin_branches: Trace,
    pub tmouts_branches: Trace,
    pub crashes_branches: Trace,
    pub density: usize,
}

impl GlobalBranches {
    pub fn new() -> (r: Self)
        ensures
            r.virgin_branches@.len() == 0,
            r.tmouts_branches@.len() == 0,
            r.crashes_branches@.len() == 0,
            r.density == 0,
    {
        GlobalBranches {
            virgin_branches: Trace::empty(),
            tmouts_branches: Trace::empty(),
            crashes_branches: Trace::empty(),
            density: 0,
        }
    }

    /// Reached cells per ten thousand cells of the branch table.
    pub fn get_density(&self) -> (r: usize)
        ensures
            r == self.density as int * 10000 / BRANCHES_SIZE as int,
    {
        ((self.density as u128) * 10000 / (BRANCHES_SIZE as u128)) as usize
    }

    /// Resizes the three maps to `new_len` cells.
    pub fn resize(&mut self, new_len: usize)
        ensures
            final(self).virgin_branches@.len() == new_len,
            final(self).tmouts_branches@.len() == new_len,
            final(self).crashes_branches@.len() == new_len,
            final(self).density == old(self).density,
    {
        self.virgin_branches.resize(new_len);
        self.tmouts_branches.resize(new_len);
        self.crashes_branches.resize(new_len);
    }

    /// Records the hits `path` of a run that ended with `status` in the map
    /// of that status: returns whether the run covered anything new,
    /// whether it reached a fresh cell, and the number of edges hit.
    /// Skipped and failed runs record nothing.
    pub fn has_new(&mut self, path: &Vec<(usize, u8)>, status: StatusType) -> (r: (bool, bool, usize))
        requires
            status == StatusType::Normal ==> path_ok(path@, old(self).virgin_branches@.len()),
            status == StatusType::Timeout ==> path_ok(path@, old(self).tmouts_branches@.len()),
            status == StatusType::Crash ==> path_ok(path@, old(self).crashes_branches@.len()),
        ensures
            status == StatusType::Normal ==> r == (
                is_novel(old(self).virgin_branches@, path@),
                count_new(old(self).virgin_branches@, path@) > 0,
                path.len(),
            ) && final(self).virgin_branches@ == cleared(old(self).virgin_branches@, path@)
                && final(self).tmouts_branches@ == old(self).tmouts_branches@
                && final(self).crashes_branches@ == old(self).crashes_branches@
                && final(self).density == (if old(self).density + count_new(old(self).virgin_branches@, path@)
                > usize::MAX {
                usize::MAX as int
            } else {
                old(self).density + count_new(old(self).virgin_branches@, path@)
            }),
            status == StatusType::Timeout ==> r == (
                is_novel(old(self).tmouts_branches@, path@),
                count_new(old(self).tmouts_branches@, path@) > 0,
                path.len(),
            ) && final(self).tmouts_branches@ == cleared(old(self).tmouts_branches@, path@)
                && final(self).virgin_branches@ == old(self).virgin_branches@
                && final(self).crashes_branches@ == old(self).crashes_branches@
                && final(self).density == old(self).density,
            status == StatusType::Crash ==> r == (
                is_novel(old(self).crashes_branches@, path@),
                count_new(old(self).crashes_branches@, path@) > 0,
                path.len(),
            ) && final(self).crashes_branches@ == cleared(old(self).crashes_branches@, path@)
                && final(self).virgin_branches@ == old(self).virgin_branches@
                && final(self).tmouts_branches@ == old(self).tmouts_branches@
                && final(self).density == old(self).density,
            (status == StatusType::Skip || status == StatusType::Error) ==> r == (false, false, 0usize)
                && final(self).virgin_branches@ == old(self).virgin_branches@
                && final(self).tmouts_branches@ == old(self).tmouts_branches@
                && final(self).crashes_branches@ == old(self).crashes_branches@
                && final(self).density == old(self).density,
    {
        let (novel, num_new) = match status {
            StatusType::Normal => self.virgin_branches.merge_path(path),
            StatusType::Timeout => self.tmouts_branches.merge_path(path),
            StatusType::Crash => self.crashes_branches.merge_path(path),
            _ => {
                return (false, false, 0);
            },
        };
        if num_new > 0 && status == StatusType::Normal {
            self.density = self.density.saturating_add(num_new);
        }
        (novel, num_new > 0, path.len())
    }
}

/// A branch table of 16-bit hit counters.
#[derive(Debug)]
pub struct BranchCountTable {
    pub branch_table: Vec<u16>,
}

impl BranchCountTable {
    pub fn set_zero(&mut self)
        ensures
            final(self).branch_table@.len() == old(self).branch_table@.len(),
            forall|i: int| 0 <= i < final(self).branch_table@.len() ==> #[trigger] final(self).branch_table@[i] == 0,
    {
        let mut i: usize = 0;
        while i < self.branch_table.len()
            invariant
                i <= self.branch_table.len(),
                self.branch_table@.len() == old(self).branch_table@.len(),
                forall|k: int| 0 <= k < i ==> #[trigger] self.branch_table@[k] == 0,
            decreases self.branch_table.len() - i,
        {
            self.branch_table.set(i, 0);
            i = i + 1;
        }
    }
}

} // verus!
