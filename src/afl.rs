//! Helpers of the AFL-style havoc strategy.
use vstd::prelude::*;
use crate::config::{MAX_INPUT_LEN, MAX_SPLICE_TIMES, MUTATE_ARITH_MAX};

verus! {

pub open spec fn differs(a: Seq<u8>, b: Seq<u8>, i: int) -> bool {
    a[i] != b[i]
}

/// The first and the last position below `len` where the two buffers
/// differ, if any.
pub fn locate_diffs(buf1: &Vec<u8>, buf2: &Vec<u8>, len: usize) -> (r: (Option<usize>, Option<usize>))
    requires
        len <= buf1.len(),
        len <= buf2.len(),
    ensures
        r.0.is_none() <==> r.1.is_none(),
        r.0.is_none() ==> forall|i: int| 0 <= i < len ==> !differs(buf1@, buf2@, i),
        r.0.is_some() ==> {
            let f = r.0.unwrap() as int;
            let l = r.1.unwrap() as int;
            &&& 0 <= f <= l < len
            &&& differs(buf1@, buf2@, f)
            &&& differs(buf1@, buf2@, l)
            &&& forall|i: int| 0 <= i < f ==> !differs(buf1@, buf2@, i)
            &&& forall|i: int| l < i < len ==> !differs(buf1@, buf2@, i)
        },
{
    let mut first_loc: Option<usize> = None;
    let mut last_loc: Option<usize> = None;
    let mut i: usize = 0;
    while i < len
        invariant
            i <= len <= buf1.len(),
            len <= buf2.len(),
            first_loc.is_none() <==> last_loc.is_none(),
            first_loc.is_none() ==> forall|k: int| 0 <= k < i ==> !differs(buf1@, buf2@, k),
            first_loc.is_some() ==> {
                let f = first_loc.unwrap() as int;
                let l = last_loc.unwrap() as int;
                &&& 0 <= f <= l < i
                &&& differs(buf1@, buf2@, f)
                &&& differs(buf1@, buf2@, l)
                &&& forall|k: int| 0 <= k < f ==> !differs(buf1@, buf2@, k)
                &&& forall|k: int| l < k < i ==> !differs(buf1@, buf2@, k)
            },
        decreases len - i,
    {
        if buf1[i] != buf2[i] {
            if first_loc.is_none() {
                first_loc = Some(i);
            }
            last_loc = Some(i);
        }
        i = i + 1;
    }
    (first_loc, last_loc)
}

/// The head of `buf1` up to `split_at` followed by the tail of `buf2` from
/// there.
pub open spec fn spliced(buf1: Seq<u8>, buf2: Seq<u8>, split_at: int) -> Seq<u8> {
    buf1.subrange(0, split_at) + buf2.subrange(split_at, buf2.len() as int)
}

/// Crosses two buffers at a point between their first and last difference,
/// chosen from `draw`: `first + draw % (last - first)`. Nothing comes out
/// when the shorter buffer has fewer than two bytes or the buffers differ
/// in fewer than two places.
pub fn splice_two_vec_at(buf1: &Vec<u8>, buf2: &Vec<u8>, draw: usize) -> (r: Option<Vec<u8>>)
    ensures
        ({
            let len = if buf1.len() < buf2.len() { buf1.len() as int } else { buf2.len() as int };
            &&& r.is_some() <==> (len >= 2 && exists|a: int, b: int|
                0 <= a < b < len && #[trigger] differs(buf1@, buf2@, a) && #[trigger] differs(buf1@, buf2@, b))
            &&& r.is_some() ==> exists|f: int, l: int|
                #![auto]
                0 <= f < l < len && differs(buf1@, buf2@, f) && differs(buf1@, buf2@, l) && (forall|i: int| 0 <= i < f ==> !differs(buf1@, buf2@, i)) && (
                forall|i: int| l < i < len ==> !differs(buf1@, buf2@, i)) && r.unwrap()@ == spliced(
                    buf1@,
                    buf2@,
                    f + (draw as int) % (l - f),
                )
        }),
{
    let len = if buf1.len() < buf2.len() {
        buf1.len()
    } else {
        buf2.len()
    };
    if len < 2 {
        return None;
    }
    let (f_loc, l_loc) = locate_diffs(buf1, buf2, len);
    if f_loc.is_none() {
        return None;
    }
    let f_loc = f_loc.unwrap();
    let l_loc = l_loc.unwrap();
    if f_loc == l_loc {
        assert forall|a: int, b: int| 0 <= a < b < len implies !(differs(buf1@, buf2@, a) && differs(
            buf1@,
            buf2@,
            b,
        )) by {}
        return None;
    }
    let split_at = f_loc + draw % (l_loc - f_loc);
    let mut v: Vec<u8> = Vec::new();
    let mut i: usize = 0;
    while i < split_at
        invariant
            i <= split_at < len <= buf1.len(),
            v@ =~= buf1@.subrange(0, i as int),
        decreases split_at - i,
    {
        v.push(buf1[i]);
        i = i + 1;
    }
    let mut k: usize = split_at;
    while k < buf2.len()
        invariant
            split_at <= k <= buf2.len(),
            split_at <= buf1.len(),
            v@ =~= buf1@.subrange(0, split_at as int) + buf2@.subrange(split_at as int, k as int),
        decreases buf2.len() - k,
    {
        v.push(buf2[k]);
        k = k + 1;
    }
    assert(differs(buf1@, buf2@, f_loc as int) && differs(buf1@, buf2@, l_loc as int));
    Some(v)
}

/// Crosses two buffers at a random point between their first and last
/// difference.
pub fn splice_two_vec(buf1: &Vec<u8>, buf2: &Vec<u8>) -> (r: Option<Vec<u8>>)
    ensures
        ({
            let len = if buf1.len() < buf2.len() { buf1.len() as int } else { buf2.len() as int };
            &&& r.is_some() <==> (len >= 2 && exists|a: int, b: int|
                0 <= a < b < len && #[trigger] differs(buf1@, buf2@, a) && #[trigger] differs(buf1@, buf2@, b))
            &&& r.is_some() ==> exists|f: int, l: int, s: int|
                #![auto]
                0 <= f <= s < l < len && differs(buf1@, buf2@, f) && differs(buf1@, buf2@, l) && (forall|i: int| 0 <= i < f ==> !differs(buf1@, buf2@, i))
                    && (forall|i: int| l < i < len ==> !differs(buf1@, buf2@, i)) && r.unwrap()@ == spliced(buf1@, buf2@, s)
        }),
{
    let draw = crate::rng::random_usize();
    let r = splice_two_vec_at(buf1, buf2, draw);
    proof {
        if r.is_some() {
            let len = if buf1.len() < buf2.len() { buf1.len() as int } else { buf2.len() as int };
            let (f, l) = choose|f: int, l: int|
                #![auto]
                0 <= f < l < len && differs(buf1@, buf2@, f) && differs(buf1@, buf2@, l) && (forall|i: int| 0 <= i < f ==> !differs(buf1@, buf2@, i)) && (
                forall|i: int| l < i < len ==> !differs(buf1@, buf2@, i)) && r.unwrap()@ == spliced(
                    buf1@,
                    buf2@,
                    f + (draw as int) % (l - f),
                );
            let s = f + (draw as int) % (l - f);
            assert(0 <= f <= s < l < len);
        }
    }
    r
}

/// Havoc on one seed, with the number of rounds its path length earns.
#[derive(Clone, Copy, Debug, PartialEq, Eq)]
pub struct AFLFuzz {
    pub run_ratio: usize,
}

impl AFLFuzz {
    /// The havoc plan for a seed whose path hit `edge_num` edges, when
    /// seeds hit `avg_edge_num` on average.
    pub fn new(edge_num: usize, avg_edge_num: usize) -> (r: Self)
        ensures
            r.run_ratio == (if edge_num as int * 3 < avg_edge_num as int {
                2usize
            } else if edge_num < avg_edge_num {
                3usize
            } else {
                5usize
            }),
    {
        AFLFuzz { run_ratio: run_ratio(edge_num, avg_edge_num) }
    }

    /// Rounds of splicing and of stacked mutations.
    pub fn rounds(&self) -> (r: usize)
        requires
            self.run_ratio <= 5,
        ensures
            r == MAX_SPLICE_TIMES * self.run_ratio,
    {
        MAX_SPLICE_TIMES * self.run_ratio
    }
}

/// How many rounds of havoc a seed gets: more for seeds whose paths are
/// shorter than the average.
pub fn run_ratio(edge_num: usize, avg_edge_num: usize) -> (r: usize)
    ensures
        r == (if edge_num as int * 3 < avg_edge_num as int {
            2usize
        } else if edge_num < avg_edge_num {
            3usize
        } else {
            5usize
        }),
{
    if (edge_num as u128) * 3 < avg_edge_num as u128 {
        2
    } else if edge_num < avg_edge_num {
        3
    } else {
        5
    }
}


/// AFL's interesting values for a width of 1, 2, 4 or 8 bytes, as the bits
/// stored: the boundaries of the signed and unsigned types of that width
/// and of the narrower ones, and a few small numbers.
pub open spec fn interesting_spec(width: usize) -> Seq<u64> {
    if width == 1 {
        seq![128u64, 255, 0, 1, 16, 32, 64, 100, 127]
    } else if width == 2 {
        seq![65408u64, 65535, 0, 1, 16, 32, 64, 100, 127, 32768, 65407, 128, 255, 256, 512, 1000, 1024, 4096, 32767]
    } else if width == 4 {
        seq![4294967168u64, 4294967295, 0, 1, 16, 32, 64, 100, 127, 4294934528, 4294967167, 128, 255, 256, 512, 1000, 1024, 4096, 32767, 2147483648, 4194304250, 4294934527, 32768, 65535, 65536, 100663045, 2147483647]
    } else {
        seq![18446744073709551488u64, 18446744073709551615, 0, 1, 16, 32, 64, 100, 127, 18446744073709518848, 18446744073709551487, 128, 255, 256, 512, 1000, 1024, 4096, 32767, 18446744071562067968, 18446744073608888570, 18446744073709518847, 32768, 65535, 65536, 100663045, 2147483647]
    }
}

pub fn get_interesting_bytes(width: usize) -> (r: Vec<u64>)
    ensures
        r@ == interesting_spec(width),
        r@.len() >= 9,
{
    let v: Vec<u64> = if width == 1 {
        vec![128u64, 255, 0, 1, 16, 32, 64, 100, 127]
    } else if width == 2 {
        vec![65408u64, 65535, 0, 1, 16, 32, 64, 100, 127, 32768, 65407, 128, 255, 256, 512, 1000, 1024, 4096, 32767]
    } else if width == 4 {
        vec![4294967168u64, 4294967295, 0, 1, 16, 32, 64, 100, 127, 4294934528, 4294967167, 128, 255, 256, 512, 1000, 1024, 4096, 32767, 2147483648, 4194304250, 4294934527, 32768, 65535, 65536, 100663045, 2147483647]
    } else {
        vec![18446744073709551488u64, 18446744073709551615, 0, 1, 16, 32, 64, 100, 127, 18446744073709518848, 18446744073709551487, 128, 255, 256, 512, 1000, 1024, 4096, 32767, 18446744071562067968, 18446744073608888570, 18446744073709518847, 32768, 65535, 65536, 100663045, 2147483647]
    };
    assert(v@ =~= interesting_spec(width));
    v
}

/// One havoc mutation, with its positions and values drawn.
#[derive(Clone, Copy, Debug, PartialEq, Eq)]
pub enum HavocOp {
    FlipBit { byte_idx: usize, bit_idx: u8 },
    SetValue { byte_idx: usize, size: usize, val: u64 },
    AddSub { byte_idx: usize, size: usize, delta: u64, direction: bool, swap: bool },
    SetByte { byte_idx: usize, val: u8 },
    CloneBytes { from: usize, size: usize, before: usize },
    InsertConst { before: usize, size: usize, val: u8 },
    Overwrite { from: usize, size: usize, to: usize },
    OverwriteConst { to: usize, size: usize, val: u8 },
    Delete { from: usize, size: usize },
    Nothing,
}

/// The positions of `op` lie inside a buffer of `len` bytes.
pub open spec fn op_ok(op: HavocOp, len: nat) -> bool {
    match op {
        HavocOp::FlipBit { byte_idx, bit_idx } => byte_idx < len && bit_idx < 8,
        HavocOp::SetValue { byte_idx, size, val } => crate::rw::is_int_size(size) && byte_idx + size <= len,
        HavocOp::AddSub { byte_idx, size, .. } => crate::rw::is_int_size(size) && byte_idx + size <= len,
        HavocOp::SetByte { byte_idx, .. } => byte_idx < len,
        HavocOp::CloneBytes { from, size, before } => from + size <= len && before <= len,
        HavocOp::InsertConst { before, .. } => before <= len,
        HavocOp::Overwrite { from, size, to } => from + size <= len && to + size <= len,
        HavocOp::OverwriteConst { to, size, .. } => to + size <= len,
        HavocOp::Delete { from, size } => from + size <= len,
        HavocOp::Nothing => true,
    }
}

/// The buffer after `op`.
pub open spec fn havoc_result(buf: Seq<u8>, op: HavocOp) -> Seq<u8> {
    match op {
        HavocOp::FlipBit { byte_idx, bit_idx } => buf.update(
            byte_idx as int,
            buf[byte_idx as int] ^ ((128u8 >> bit_idx) as u8),
        ),
        HavocOp::SetValue { byte_idx, size, val } => crate::rw::write_seg(
            buf,
            byte_idx as int,
            crate::rw::le_bytes(val as nat, size as nat),
        ),
        HavocOp::AddSub { byte_idx, size, delta, direction, swap } => crate::rw::write_seg(
            buf,
            byte_idx as int,
            crate::rw::updated_seg(buf.subrange(byte_idx as int, byte_idx + size), swap, direction, delta),
        ),
        HavocOp::SetByte { byte_idx, val } => buf.update(byte_idx as int, val),
        HavocOp::CloneBytes { from, size, before } => buf.subrange(0, before as int) + buf.subrange(
            from as int,
            from + size,
        ) + buf.subrange(before as int, buf.len() as int),
        HavocOp::InsertConst { before, size, val } => buf.subrange(0, before as int) + Seq::new(
            size as nat,
            |k: int| val,
        ) + buf.subrange(before as int, buf.len() as int),
        HavocOp::Overwrite { from, size, to } => crate::rw::write_seg(
            buf,
            to as int,
            buf.subrange(from as int, from + size),
        ),
        HavocOp::OverwriteConst { to, size, val } => crate::rw::write_seg(
            buf,
            to as int,
            Seq::new(size as nat, |k: int| val),
        ),
        HavocOp::Delete { from, size } => buf.subrange(0, from as int) + buf.subrange(
            from + size,
            buf.len() as int,
        ),
        HavocOp::Nothing => buf,
    }
}

fn const_vec(size: usize, val: u8) -> (r: Vec<u8>)
    ensures
        r@ == Seq::new(size as nat, |k: int| val),
{
    let mut v: Vec<u8> = Vec::new();
    let mut i: usize = 0;
    while i < size
        invariant
            i <= size,
            v@ =~= Seq::new(i as nat, |k: int| val),
        decreases size - i,
    {
        v.push(val);
        i = i + 1;
    }
    v
}

fn copy_range(buf: &Vec<u8>, from: usize, size: usize) -> (r: Vec<u8>)
    requires
        from + size <= buf.len(),
    ensures
        r@ == buf@.subrange(from as int, from + size),
{
    let mut v: Vec<u8> = Vec::new();
    let mut i: usize = 0;
    while i < size
        invariant
            i <= size,
            from + size <= buf.len(),
            v@ =~= buf@.subrange(from as int, from + i),
        decreases size - i,
    {
        v.push(buf[from + i]);
        i = i + 1;
    }
    v
}

/// Applies one havoc mutation.
pub fn apply_havoc(buf: &mut Vec<u8>, op: HavocOp)
    requires
        op_ok(op, old(buf).len() as nat),
    ensures
        final(buf)@ == havoc_result(old(buf)@, op),
{
    match op {
        HavocOp::FlipBit { byte_idx, bit_idx } => {
            let b = buf[byte_idx] ^ (128u8 >> bit_idx);
            buf.set(byte_idx, b);
        },
        HavocOp::SetValue { byte_idx, size, val } => {
            crate::rw::set_val_in_buf(buf, byte_idx, size, val);
        },
        HavocOp::AddSub { byte_idx, size, delta, direction, swap } => {
            crate::rw::update_val_in_buf(buf, false, byte_idx, size, direction, swap, delta);
        },
        HavocOp::SetByte { byte_idx, val } => {
            buf.set(byte_idx, val);
        },
        HavocOp::CloneBytes { from, size, before } => {
            let part = copy_range(buf, from, size);
            crate::rw::insert_partial_buf(buf, part, before);
        },
        HavocOp::InsertConst { before, size, val } => {
            let part = const_vec(size, val);
            crate::rw::insert_partial_buf(buf, part, before);
        },
        HavocOp::Overwrite { from, size, to } => {
            crate::rw::overwrite_partial_buf(buf, from, size, to);
        },
        HavocOp::OverwriteConst { to, size, val } => {
            let ghost before = buf@;
            let mut k: usize = 0;
            while k < size
                invariant
                    k <= size,
                    to + size <= buf.len(),
                    buf.len() == before.len(),
                    before == old(buf)@,
                    buf@ =~= crate::rw::write_seg(before, to as int, Seq::new(k as nat, |j: int| val)),
                decreases size - k,
            {
                buf.set(to + k, val);
                k = k + 1;
                assert(buf@ =~= crate::rw::write_seg(before, to as int, Seq::new(k as nat, |j: int| val)));
            }
        },
        HavocOp::Delete { from, size } => {
            let mut v: Vec<u8> = Vec::new();
            let mut i: usize = 0;
            while i < from
                invariant
                    i <= from,
                    from + size <= buf.len(),
                    v@ =~= buf@.subrange(0, i as int),
                decreases from - i,
            {
                v.push(buf[i]);
                i = i + 1;
            }
            let mut k: usize = from + size;
            while k < buf.len()
                invariant
                    from + size <= k <= buf.len(),
                    v@ =~= buf@.subrange(0, from as int) + buf@.subrange(from + size, k as int),
                decreases buf.len() - k,
            {
                v.push(buf[k]);
                k = k + 1;
            }
            *buf = v;
        },
        HavocOp::Nothing => {},
    }
}

/// Length of a block to clone, overwrite or delete: drawn from one of
/// `[1, 32)`, `[32, 128)`, `[128, 1500)` or `[1500, MAX_INPUT_LEN)`, cut to
/// below `limit`.
fn random_block_len(limit: u32) -> (r: u32)
    requires
        limit >= 1,
    ensures
        r < limit,
        limit >= 2 ==> r >= 1,
{
    let kind = crate::rng::random_below(3);
    let (mut min, max): (u32, u32) = if kind == 0 {
        (1, 32)
    } else if kind == 1 {
        (32, 128)
    } else if crate::rng::random_ratio(9, 10) {
        (128, 1500)
    } else {
        (1500, MAX_INPUT_LEN as u32)
    };
    if min >= limit {
        min = if limit - 1 < 1 {
            limit - 1
        } else {
            1
        };
    }
    let hi = if limit < max {
        limit
    } else {
        max
    };
    min + crate::rng::random_below(hi - min)
}

/// Whether `op` is of the kind that `choice` selects: 0–3 flip a bit,
/// 4–15 set an interesting value, 16–39 add or subtract, 40–43 set a byte,
/// 44–46 clone a block, 47 insert a constant block, 48–50 overwrite with a
/// block, 51 overwrite with a constant, 52–59 delete a block, any other
/// does nothing. Setting and arithmetic do nothing on a buffer too short.
pub open spec fn op_selected(op: HavocOp, choice: u32) -> bool {
    if choice <= 3 {
        op is FlipBit
    } else if choice <= 15 {
        op is SetValue || op is Nothing
    } else if choice <= 39 {
        op is AddSub || op is Nothing
    } else if choice <= 43 {
        op is SetByte
    } else if choice <= 46 {
        op is CloneBytes
    } else if choice == 47 {
        op is InsertConst
    } else if choice <= 50 {
        op is Overwrite
    } else if choice == 51 {
        op is OverwriteConst
    } else if choice <= 59 {
        op is Delete
    } else {
        op is Nothing
    }
}

/// Some choice below `max_choice` selects `op`.
pub open spec fn selectable(op: HavocOp, max_choice: u32) -> bool {
    exists|c: u32| c < max_choice && #[trigger] op_selected(op, c)
}

/// `buf` after the mutations `ops`, in order.
pub open spec fn apply_ops(buf: Seq<u8>, ops: Seq<HavocOp>) -> Seq<u8>
    decreases ops.len(),
{
    if ops.len() == 0 {
        buf
    } else {
        havoc_result(apply_ops(buf, ops.drop_last()), ops.last())
    }
}

/// Each mutation fits the buffer it is applied to and is one that a choice
/// below `max_choice` selects.
pub open spec fn ops_fit(buf: Seq<u8>, ops: Seq<HavocOp>, max_choice: u32) -> bool
    decreases ops.len(),
{
    if ops.len() == 0 {
        true
    } else {
        ops_fit(buf, ops.drop_last(), max_choice) && op_ok(ops.last(), apply_ops(buf, ops.drop_last()).len())
            && selectable(ops.last(), max_choice)
    }
}

/// Draws the mutation that `choice` selects for a buffer of `len` bytes.
fn draw_havoc_op(len: u32, choice: u32) -> (r: HavocOp)
    requires
        1 <= len <= MAX_INPUT_LEN,
    ensures
        op_ok(r, len as nat),
        havoc_result(Seq::new(len as nat, |k: int| 0u8), r).len() <= MAX_INPUT_LEN,
        op_selected(r, choice),
{
    let max_len = MAX_INPUT_LEN as u32;
    if choice <= 3 {
        let byte_idx = crate::rng::random_below(len);
        let bit_idx = crate::rng::random_below(8);
        HavocOp::FlipBit { byte_idx: byte_idx as usize, bit_idx: bit_idx as u8 }
    } else if choice <= 15 {
        let n = crate::rng::random_below(3);
        let size: usize = if n == 0 {
            1
        } else if n == 1 {
            2
        } else {
            4
        };
        if len as usize > size {
            let byte_idx = crate::rng::random_below(len - size as u32 + 1);
            let vals = get_interesting_bytes(size);
            let wh = crate::rng::random_below(vals.len() as u32);
            let mut val = vals[wh as usize];
            if crate::rng::random_bool() {
                val = crate::rw::reverse_endian(val, size);
            }
            proof {
                crate::rw::lemma_le_bytes_len(val as nat, size as nat);
            }
            HavocOp::SetValue { byte_idx: byte_idx as usize, size, val }
        } else {
            HavocOp::Nothing
        }
    } else if choice <= 39 {
        let n = crate::rng::random_below(3);
        let size: usize = if n == 0 {
            1
        } else if n == 1 {
            2
        } else {
            4
        };
        if len as usize > size {
            let byte_idx = crate::rng::random_below(len - size as u32 + 1);
            let v = crate::rng::random_below(MUTATE_ARITH_MAX);
            let direction = crate::rng::random_bool();
            let swap = crate::rng::random_bool();
            let op = HavocOp::AddSub { byte_idx: byte_idx as usize, size, delta: v as u64, direction, swap };
            proof {
                let z = Seq::new(len as nat, |k: int| 0u8);
                lemma_updated_len(z.subrange(byte_idx as int, byte_idx + size), swap, direction, v as u64);
            }
            op
        } else {
            HavocOp::Nothing
        }
    } else if choice <= 43 {
        let byte_idx = crate::rng::random_below(len);
        HavocOp::SetByte { byte_idx: byte_idx as usize, val: crate::rng::random_u8() }
    } else if choice <= 46 {
        let mut size = random_block_len(len);
        let from = crate::rng::random_below(len - size + 1);
        let before = crate::rng::random_below(len + 1);
        if size + len > max_len {
            size = max_len - len;
        }
        HavocOp::CloneBytes { from: from as usize, size: size as usize, before: before as usize }
    } else if choice == 47 {
        let mut size = random_block_len(len);
        let before = crate::rng::random_below(len + 1);
        if size + len > max_len {
            size = max_len - len;
        }
        HavocOp::InsertConst { before: before as usize, size: size as usize, val: crate::rng::random_u8() }
    } else if choice <= 50 {
        let size = random_block_len(len);
        let from = crate::rng::random_below(len - size + 1);
        let to = crate::rng::random_below(len - size + 1);
        HavocOp::Overwrite { from: from as usize, size: size as usize, to: to as usize }
    } else if choice == 51 {
        let size = random_block_len(len);
        let to = crate::rng::random_below(len - size + 1);
        HavocOp::OverwriteConst { to: to as usize, size: size as usize, val: crate::rng::random_u8() }
    } else if choice <= 59 {
        let size = random_block_len(len);
        let from = crate::rng::random_below(len - size + 1);
        HavocOp::Delete { from: from as usize, size: size as usize }
    } else {
        HavocOp::Nothing
    }
}

/// Stacks 1 to `max_stacking` random mutations on `buf`, each of a kind
/// that a number drawn below `max_choice` selects; the buffer never grows
/// past `MAX_INPUT_LEN`, and an empty buffer is left alone.
pub fn havoc_flip(buf: &mut Vec<u8>, max_stacking: u32, max_choice: u32)
    requires
        max_stacking >= 1,
        max_choice >= 1,
        old(buf).len() <= MAX_INPUT_LEN,
    ensures
        final(buf).len() <= MAX_INPUT_LEN,
        old(buf).len() == 0 ==> final(buf)@ == old(buf)@,
        old(buf).len() > 0 ==> exists|ops: Seq<HavocOp>|
            1 <= ops.len() <= max_stacking && #[trigger] ops_fit(old(buf)@, ops, max_choice) && final(buf)@
                == apply_ops(old(buf)@, ops),
{
    let use_stacking = 1 + crate::rng::random_below(max_stacking);
    let ghost mut ops: Seq<HavocOp> = Seq::empty();
    let mut i: u32 = 0;
    while i < use_stacking
        invariant
            max_choice >= 1,
            use_stacking <= max_stacking,
            i <= use_stacking,
            ops.len() == i,
            buf.len() <= MAX_INPUT_LEN,
            old(buf).len() == 0 ==> buf@ == old(buf)@,
            ops_fit(old(buf)@, ops, max_choice),
            buf@ == apply_ops(old(buf)@, ops),
            old(buf).len() > 0 && i == 0 ==> buf.len() > 0,
        decreases use_stacking - i,
    {
        let byte_len = buf.len() as u32;
        if byte_len == 0 {
            assert(i >= 1 || old(buf).len() == 0);
            return;
        }
        let choice = crate::rng::random_below(max_choice);
        let op = draw_havoc_op(byte_len, choice);
        proof {
            lemma_havoc_len(buf@, Seq::new(byte_len as nat, |k: int| 0u8), op);
            assert(selectable(op, max_choice)) by {
                assert(choice < max_choice && op_selected(op, choice));
            }
            let ops1 = ops.push(op);
            assert(ops1.drop_last() =~= ops);
            assert(ops1.last() == op);
            ops = ops1;
        }
        apply_havoc(buf, op);
        i = i + 1;
    }
    proof {
        if old(buf).len() > 0 {
            assert(1 <= ops.len() <= max_stacking && ops_fit(old(buf)@, ops, max_choice));
        }
    }
}

/// The length after a mutation depends on the length before alone.
proof fn lemma_havoc_len(a: Seq<u8>, b: Seq<u8>, op: HavocOp)
    requires
        a.len() == b.len(),
        op_ok(op, a.len()),
    ensures
        havoc_result(a, op).len() == havoc_result(b, op).len(),
{
    match op {
        HavocOp::SetValue { size, val, .. } => {
            crate::rw::lemma_le_bytes_len(val as nat, size as nat);
        },
        HavocOp::AddSub { byte_idx, size, delta, direction, swap } => {
            let sa = a.subrange(byte_idx as int, byte_idx + size);
            let sb = b.subrange(byte_idx as int, byte_idx + size);
            lemma_updated_len(sa, swap, direction, delta);
            lemma_updated_len(sb, swap, direction, delta);
        },
        _ => {},
    }
}

pub(crate) proof fn lemma_updated_len(seg: Seq<u8>, swap: bool, direction: bool, delta: u64)
    ensures
        crate::rw::updated_seg(seg, swap, direction, delta).len() == seg.len(),
{
    let x = crate::rw::seg_value(seg, swap) as int;
    let w = crate::rw::byte_range(seg.len()) as int;
    crate::rw::lemma_byte_range_pos(seg.len());
    let y = if direction { (x + delta) % w } else { (x - delta) % w };
    crate::rw::lemma_le_bytes_len(y as nat, seg.len());
}


/// Number of bytes appended before the `k`-th longer input: 1, 3, 7, 15.
pub open spec fn grown_by(k: int) -> int {
    if k == 0 {
        1
    } else if k == 1 {
        3
    } else if k == 2 {
        7
    } else {
        15
    }
}

/// The longer inputs tried on a seed's first visit: the seed with 1, then
/// 2, 4 and 8 more random bytes appended, each one extending the last, as
/// long as they stay below `MAX_INPUT_LEN`.
pub fn small_len_inputs(seed: &Vec<u8>) -> (r: Vec<Vec<u8>>)
    ensures
        r.len() <= 4,
        seed.len() > MAX_INPUT_LEN ==> r.len() == 0,
        seed.len() <= MAX_INPUT_LEN ==> forall|k: int|
            0 <= k < 4 ==> (k < r.len() <==> seed.len() + grown_by(k) < MAX_INPUT_LEN),
        forall|k: int|
            0 <= k < r.len() ==> (#[trigger] r@[k])@.len() == seed.len() + grown_by(k) && r@[k]@.subrange(
                0,
                seed.len() as int,
            ) == seed@,
{
    let mut out: Vec<Vec<u8>> = Vec::new();
    if seed.len() > MAX_INPUT_LEN {
        return out;
    }
    let mut buf: Vec<u8> = Vec::new();
    let mut i: usize = 0;
    while i < seed.len()
        invariant
            i <= seed.len(),
            buf@ =~= seed@.subrange(0, i as int),
        decreases seed.len() - i,
    {
        buf.push(seed[i]);
        i = i + 1;
    }
    let mut step: usize = 1;
    let mut k: usize = 0;
    while k < 4
        invariant
            k <= 4,
            seed.len() <= MAX_INPUT_LEN,
            step == (if k == 0 { 1usize } else if k == 1 { 2usize } else if k == 2 { 4usize } else if k == 3 { 8usize } else { 16usize }),
            buf@.len() == seed.len() + (if k == 0 { 0 } else { grown_by(k - 1) }),
            buf@.subrange(0, seed.len() as int) == seed@,
            out.len() == k,
            forall|j: int| 0 <= j < k ==> seed.len() + grown_by(j) < MAX_INPUT_LEN,
            forall|j: int|
                0 <= j < out.len() ==> (#[trigger] out@[j])@.len() == seed.len() + grown_by(j) && out@[j]@.subrange(
                    0,
                    seed.len() as int,
                ) == seed@,
        decreases 4 - k,
    {
        let mut tail: Vec<u8> = Vec::new();
        let mut t: usize = 0;
        while t < step
            invariant
                t <= step,
                tail@.len() == t,
            decreases step - t,
        {
            tail.push(0u8);
            t = t + 1;
        }
        crate::rng::fill_random(&mut tail);
        let ghost before = buf@;
        let mut t2: usize = 0;
        while t2 < tail.len()
            invariant
                t2 <= tail.len(),
                buf@ =~= before + tail@.subrange(0, t2 as int),
            decreases tail.len() - t2,
        {
            buf.push(tail[t2]);
            t2 = t2 + 1;
        }
        assert(buf@.subrange(0, seed.len() as int) =~= before.subrange(0, seed.len() as int));
        if buf.len() < MAX_INPUT_LEN {
            let copy = buf.clone();
            assert(copy@ =~= buf@);
            out.push(copy);
        } else {
            assert forall|j: int| k <= j < 4 implies !(seed.len() + grown_by(j) < MAX_INPUT_LEN) by {}
            return out;
        }
        step = step * 2;
        k = k + 1;
    }
    out
}

} // verus!
