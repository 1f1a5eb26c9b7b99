//! Reading and writing integers and tainted byte ranges in an input buffer.
//!
//! Integers are stored little-endian; a big-endian segment is the reversed
//! byte sequence.
use vstd::prelude::*;
use crate::tag::TagSeg;

verus! {

/// `256^n`: the number of values of `n` bytes.
pub open spec fn byte_range(n: nat) -> nat
    decreases n,
{
    if n == 0 {
        1
    } else {
        256 * byte_range((n - 1) as nat)
    }
}

/// The unsigned value of a little-endian byte sequence.
pub open spec fn le_value(s: Seq<u8>) -> nat
    decreases s.len(),
{
    if s.len() == 0 {
        0
    } else {
        s[0] as nat + 256 * le_value(s.drop_first())
    }
}

/// The `n` low bytes of `v`, least significant first.
pub open spec fn le_bytes(v: nat, n: nat) -> Seq<u8>
    decreases n,
{
    if n == 0 {
        Seq::empty()
    } else {
        seq![(v % 256) as u8] + le_bytes(v / 256, (n - 1) as nat)
    }
}

/// `buf` with `seg` written from position `off` on.
pub open spec fn write_seg(buf: Seq<u8>, off: int, seg: Seq<u8>) -> Seq<u8> {
    Seq::new(buf.len(), |k: int| if off <= k < off + seg.len() { seg[k - off] } else { buf[k] })
}

pub open spec fn is_int_size(size: usize) -> bool {
    size == 1 || size == 2 || size == 4 || size == 8
}

pub proof fn lemma_byte_range_values()
    ensures
        byte_range(0) == 1,
        byte_range(1) == 0x100,
        byte_range(2) == 0x1_0000,
        byte_range(3) == 0x100_0000,
        byte_range(4) == 0x1_0000_0000,
        byte_range(5) == 0x100_0000_0000,
        byte_range(6) == 0x1_0000_0000_0000,
        byte_range(7) == 0x100_0000_0000_0000,
        byte_range(8) == 0x1_0000_0000_0000_0000,
{
    reveal_with_fuel(byte_range, 9);
}

pub proof fn lemma_byte_range_pos(n: nat)
    ensures
        byte_range(n) > 0,
    decreases n,
{
    if n > 0 {
        lemma_byte_range_pos((n - 1) as nat);
    }
}

pub proof fn lemma_le_bytes_len(v: nat, n: nat)
    ensures
        le_bytes(v, n).len() == n,
    decreases n,
{
    if n > 0 {
        lemma_le_bytes_len(v / 256, (n - 1) as nat);
    }
}

pub proof fn lemma_le_value_bound(s: Seq<u8>)
    ensures
        le_value(s) < byte_range(s.len()),
    decreases s.len(),
{
    if s.len() > 0 {
        lemma_le_value_bound(s.drop_first());
        let x = le_value(s.drop_first());
        let b = byte_range((s.len() - 1) as nat);
        assert(s[0] as nat + 256 * x < 256 * b) by (nonlinear_arith)
            requires
                x < b,
                s[0] < 256,
        ;
    }
}

/// Decoding the `n` low bytes of `v` gives `v` modulo `256^n`.
pub proof fn lemma_value_of_bytes(v: nat, n: nat)
    ensures
        le_value(le_bytes(v, n)) == v % byte_range(n),
    decreases n,
{
    lemma_le_bytes_len(v, n);
    if n == 0 {
    } else {
        let rest = le_bytes(v / 256, (n - 1) as nat);
        assert(le_bytes(v, n).drop_first() =~= rest);
        lemma_value_of_bytes(v / 256, (n - 1) as nat);
        lemma_byte_range_pos((n - 1) as nat);
        vstd::arithmetic::div_mod::lemma_mod_breakdown(
            v as int,
            256,
            byte_range((n - 1) as nat) as int,
        );
    }
}

/// Encoding the value of a byte sequence gives the sequence back.
pub proof fn lemma_bytes_of_value(s: Seq<u8>)
    ensures
        le_bytes(le_value(s), s.len()) =~= s,
    decreases s.len(),
{
    if s.len() > 0 {
        let x = le_value(s.drop_first());
        let v = le_value(s);
        vstd::arithmetic::div_mod::lemma_fundamental_div_mod_converse(
            v as int,
            256,
            x as int,
            s[0] as int,
        );
        lemma_bytes_of_value(s.drop_first());
        assert(le_bytes(v, s.len()) =~= seq![s[0]] + s.drop_first());
    }
}

/// Reads the little-endian integer of `size` bytes at `off`.
pub(crate) fn read_le(buf: &Vec<u8>, off: usize, size: usize) -> (r: u64)
    requires
        size <= 8,
        off + size <= buf.len(),
    ensures
        r == le_value(buf@.subrange(off as int, off + size)),
{
    proof {
        lemma_byte_range_values();
    }
    let mut v: u64 = 0;
    let mut j: usize = size;
    while j > 0
        invariant
            j <= size <= 8,
            off + size <= buf.len(),
            v == le_value(buf@.subrange(off + j, off + size)),
            v < byte_range((size - j) as nat),
        decreases j,
    {
        let ghost s = buf@.subrange(off + j - 1, off + size);
        assert(s.drop_first() =~= buf@.subrange(off + j, off + size));
        proof {
            lemma_le_value_bound(s);
            assert(byte_range((size - j) as nat) <= 0x100_0000_0000_0000) by {
                lemma_byte_range_mono((size - j) as nat, 7);
                lemma_byte_range_values();
            }
        }
        let b = buf[off + j - 1];
        v = v * 256 + b as u64;
        j = j - 1;
    }
    v
}

pub proof fn lemma_byte_range_mono(a: nat, b: nat)
    requires
        a <= b,
    ensures
        byte_range(a) <= byte_range(b),
    decreases b,
{
    if a < b {
        lemma_byte_range_mono(a, (b - 1) as nat);
        lemma_byte_range_pos((b - 1) as nat);
    }
}

/// Writes the `size` low bytes of `v` at `off`, least significant first.
pub(crate) fn write_le(buf: &mut Vec<u8>, off: usize, size: usize, v: u64)
    requires
        off + size <= old(buf).len(),
    ensures
        final(buf)@ == write_seg(old(buf)@, off as int, le_bytes(v as nat, size as nat)),
{
    let ghost target = le_bytes(v as nat, size as nat);
    proof {
        lemma_le_bytes_len(v as nat, size as nat);
        assert(le_bytes(v as nat, size as nat) =~= target.subrange(0, size as int));
    }
    let mut x: u64 = v;
    let mut i: usize = 0;
    while i < size
        invariant
            i <= size,
            off + size <= buf.len(),
            target.len() == size,
            target == le_bytes(v as nat, size as nat),
            buf@ =~= write_seg(old(buf)@, off as int, target.subrange(0, i as int)),
            le_bytes(x as nat, (size - i) as nat) =~= target.subrange(i as int, size as int),
        decreases size - i,
    {
        let ghost rest = le_bytes(x as nat, (size - i) as nat);
        assert(rest[0] == (x % 256) as u8);
        assert(rest.drop_first() =~= le_bytes((x / 256) as nat, (size - i - 1) as nat));
        assert(target[i as int] == rest[0]);
        buf.set(off + i, (x % 256) as u8);
        x = x / 256;
        i = i + 1;
        assert(buf@ =~= write_seg(old(buf)@, off as int, target.subrange(0, i as int)));
        assert(le_bytes(x as nat, (size - i) as nat) =~= target.subrange(i as int, size as int));
    }
    assert(target.subrange(0, size as int) =~= target);
}


/// The integer of `seg` read as stored (`swap` false) or byte-reversed.
pub open spec fn seg_value(seg: Seq<u8>, swap: bool) -> nat {
    if swap {
        le_value(seg.reverse())
    } else {
        le_value(seg)
    }
}

/// The `n` bytes that store `v` in the given byte order.
pub open spec fn seg_bytes(v: nat, n: nat, swap: bool) -> Seq<u8> {
    if swap {
        le_bytes(v, n).reverse()
    } else {
        le_bytes(v, n)
    }
}

/// The bytes of `seg` after adding (`direction`) or subtracting `delta`,
/// wrapping at the segment's width.
pub open spec fn updated_seg(seg: Seq<u8>, swap: bool, direction: bool, delta: u64) -> Seq<u8> {
    let x = seg_value(seg, swap) as int;
    let w = byte_range(seg.len()) as int;
    let y = if direction {
        (x + delta) % w
    } else {
        (x - delta) % w
    };
    seg_bytes(y as nat, seg.len(), swap)
}

pub open spec fn chunk(o: TagSeg, buf: Seq<u8>) -> Seq<u8> {
    if o.begin < o.end {
        buf.subrange(o.begin as int, o.end as int)
    } else {
        Seq::empty()
    }
}

pub open spec fn chunk_width(o: TagSeg) -> nat {
    if o.begin < o.end {
        (o.end - o.begin) as nat
    } else {
        0
    }
}

/// Every non-empty segment lies inside a buffer of `len` bytes.
pub open spec fn segs_fit(offs: Seq<TagSeg>, len: nat) -> bool {
    forall|i: int| 0 <= i < offs.len() && #[trigger] offs[i].begin < offs[i].end ==> offs[i].end <= len
}

/// The bytes of `buf` under the segments, concatenated in order.
pub open spec fn gather(offs: Seq<TagSeg>, buf: Seq<u8>) -> Seq<u8>
    decreases offs.len(),
{
    if offs.len() == 0 {
        Seq::empty()
    } else {
        gather(offs.drop_last(), buf) + chunk(offs.last(), buf)
    }
}

pub open spec fn total_width(offs: Seq<TagSeg>) -> nat
    decreases offs.len(),
{
    if offs.len() == 0 {
        0
    } else {
        chunk_width(offs[0]) + total_width(offs.drop_first())
    }
}

/// `buf` after `bytes` is written, in order, over the segments.
pub open spec fn scatter(offs: Seq<TagSeg>, bytes: Seq<u8>, buf: Seq<u8>) -> Seq<u8>
    decreases offs.len(),
{
    if offs.len() == 0 {
        buf
    } else {
        let w = chunk_width(offs[0]) as int;
        scatter(
            offs.drop_first(),
            bytes.subrange(w, bytes.len() as int),
            write_seg(buf, offs[0].begin as int, bytes.subrange(0, w)),
        )
    }
}

/// The tainted bytes of `buf`, segment after segment.
pub fn get_bytes_by_offsets(offsets: &Vec<TagSeg>, buf: &Vec<u8>) -> (r: Vec<u8>)
    requires
        segs_fit(offsets@, buf.len() as nat),
    ensures
        r@ == gather(offsets@, buf@),
{
    let mut bytes: Vec<u8> = Vec::new();
    let mut i: usize = 0;
    while i < offsets.len()
        invariant
            i <= offsets.len(),
            segs_fit(offsets@, buf.len() as nat),
            bytes@ == gather(offsets@.subrange(0, i as int), buf@),
        decreases offsets.len() - i,
    {
        let off = offsets[i];
        assert(offsets@.subrange(0, i + 1).drop_last() =~= offsets@.subrange(0, i as int));
        if off.begin < off.end {
            let mut k: usize = off.begin as usize;
            let ghost before = bytes@;
            while k < off.end as usize
                invariant
                    off.begin <= k <= off.end <= buf.len(),
                    bytes@ =~= before + buf@.subrange(off.begin as int, k as int),
                decreases off.end - k,
            {
                bytes.push(buf[k]);
                k = k + 1;
                assert(bytes@ =~= before + buf@.subrange(off.begin as int, k as int));
            }
        }
        i = i + 1;
    }
    assert(offsets@.subrange(0, i as int) =~= offsets@);
    bytes
}

/// Writes `bytes`, in order, over the tainted segments of `buf`.
pub fn set_bytes_by_offsets(offsets: &Vec<TagSeg>, bytes: &Vec<u8>, buf: &mut Vec<u8>)
    requires
        segs_fit(offsets@, old(buf).len() as nat),
        total_width(offsets@) <= bytes.len(),
    ensures
        final(buf)@ == scatter(offsets@, bytes@, old(buf)@),
{
    let mut cur: usize = 0;
    let mut i: usize = 0;
    assert(offsets@.subrange(0, offsets.len() as int) =~= offsets@);
    assert(bytes@.subrange(0, bytes.len() as int) =~= bytes@);
    while i < offsets.len()
        invariant
            i <= offsets.len(),
            buf.len() == old(buf).len(),
            segs_fit(offsets@, buf.len() as nat),
            cur + total_width(offsets@.subrange(i as int, offsets.len() as int)) <= bytes.len(),
            scatter(
                offsets@.subrange(i as int, offsets.len() as int),
                bytes@.subrange(cur as int, bytes.len() as int),
                buf@,
            ) == scatter(offsets@, bytes@, old(buf)@),
        decreases offsets.len() - i,
    {
        let off = offsets[i];
        let ghost rest = offsets@.subrange(i as int, offsets.len() as int);
        assert(rest.drop_first() =~= offsets@.subrange(i + 1, offsets.len() as int));
        assert(rest[0] == off);
        let ghost tail = bytes@.subrange(cur as int, bytes.len() as int);
        if off.begin < off.end {
            let w: usize = (off.end - off.begin) as usize;
            let ghost before = buf@;
            let mut k: usize = 0;
            while k < w
                invariant
                    k <= w,
                    w == off.end - off.begin,
                    off.end <= buf.len(),
                    buf.len() == before.len(),
                    cur + w <= bytes.len(),
                    buf@ =~= write_seg(before, off.begin as int, bytes@.subrange(cur as int, cur + k)),
                decreases w - k,
            {
                buf.set(off.begin as usize + k, bytes[cur + k]);
                k = k + 1;
                assert(buf@ =~= write_seg(before, off.begin as int, bytes@.subrange(cur as int, cur + k)));
            }
            assert(tail.subrange(0, w as int) =~= bytes@.subrange(cur as int, cur + w));
            assert(tail.subrange(w as int, tail.len() as int) =~= bytes@.subrange(cur + w, bytes.len() as int));
            cur = cur + w;
        } else {
            assert(write_seg(buf@, off.begin as int, tail.subrange(0, 0)) =~= buf@);
            assert(tail.subrange(0, tail.len() as int) =~= tail);
        }
        i = i + 1;
    }
}

/// The little-endian integer of `size` bytes at `off`; sizes other than
/// 1, 2, 4 and 8 are refused.
pub fn read_val_from_buf(buf: &Vec<u8>, off: usize, size: usize) -> (r: Result<u64, &'static str>)
    requires
        is_int_size(size) ==> off + size <= buf.len(),
    ensures
        is_int_size(size) ==> r == Ok::<u64, &str>(le_value(buf@.subrange(off as int, off + size)) as u64),
        !is_int_size(size) ==> r.is_err(),
{
    if size == 1 || size == 2 || size == 4 || size == 8 {
        Ok(read_le(buf, off, size))
    } else {
        Err("strange arg off and size")
    }
}

/// Stores the `size` low bytes of `val` at `off`, little-endian.
pub fn set_val_in_buf(buf: &mut Vec<u8>, off: usize, size: usize, val: u64)
    requires
        is_int_size(size),
        off + size <= old(buf).len(),
    ensures
        final(buf)@ == write_seg(old(buf)@, off as int, le_bytes(val as nat, size as nat)),
{
    write_le(buf, off, size, val);
}

/// The little-endian integer of `size` bytes at `off`.
pub fn get_val_in_buf(buf: &mut Vec<u8>, off: usize, size: usize) -> (r: u64)
    requires
        is_int_size(size),
        off + size <= old(buf).len(),
    ensures
        r == le_value(old(buf)@.subrange(off as int, off + size)),
        final(buf)@ == old(buf)@,
{
    read_le(buf, off, size)
}

/// `val`'s `size` low bytes in the opposite order.
pub fn reverse_endian(val: u64, size: usize) -> (r: u64)
    requires
        is_int_size(size),
    ensures
        r == le_value(le_bytes(val as nat, size as nat).reverse()),
{
    let ghost bytes = le_bytes(val as nat, size as nat);
    proof {
        lemma_le_bytes_len(val as nat, size as nat);
        assert(bytes.subrange(0, size as int) =~= bytes);
        assert(bytes.subrange(0, 0).reverse() =~= Seq::<u8>::empty());
    }
    let mut x: u64 = val;
    let mut r: u64 = 0;
    let mut i: usize = 0;
    while i < size
        invariant
            i <= size <= 8,
            bytes.len() == size,
            bytes == le_bytes(val as nat, size as nat),
            r == le_value(bytes.subrange(0, i as int).reverse()),
            le_bytes(x as nat, (size - i) as nat) =~= bytes.subrange(i as int, size as int),
        decreases size - i,
    {
        let ghost rest = le_bytes(x as nat, (size - i) as nat);
        let ghost pre = bytes.subrange(0, i as int);
        assert(rest.drop_first() =~= le_bytes((x / 256) as nat, (size - i - 1) as nat));
        assert(rest[0] == (x % 256) as u8);
        assert(bytes[i as int] == rest[0]);
        assert(bytes.subrange(0, i + 1).reverse() =~= seq![(x % 256) as u8] + pre.reverse());
        assert((seq![(x % 256) as u8] + pre.reverse()).drop_first() =~= pre.reverse());
        proof {
            lemma_le_value_bound(pre.reverse());
            lemma_byte_range_mono(i as nat, 7);
            lemma_byte_range_values();
        }
        r = r * 256 + x % 256;
        x = x / 256;
        i = i + 1;
        assert(le_bytes(x as nat, (size - i) as nat) =~= bytes.subrange(i as int, size as int));
    }
    r
}


/// `256^size` for the integer sizes.
pub(crate) fn width_of(size: usize) -> (r: u128)
    requires
        is_int_size(size),
    ensures
        r == byte_range(size as nat),
{
    proof {
        lemma_byte_range_values();
    }
    if size == 1 {
        0x100
    } else if size == 2 {
        0x1_0000
    } else if size == 4 {
        0x1_0000_0000
    } else {
        0x1_0000_0000_0000_0000
    }
}

/// Reading the stored bytes and reversing the value reads the reversed bytes.
pub proof fn lemma_reverse_read(seg: Seq<u8>)
    ensures
        le_value(le_bytes(le_value(seg), seg.len()).reverse()) == le_value(seg.reverse()),
{
    lemma_bytes_of_value(seg);
}

/// Reversing a value and storing it stores the reversed bytes.
pub proof fn lemma_reverse_write(y: nat, n: nat)
    ensures
        le_bytes(le_value(le_bytes(y, n).reverse()), n) == le_bytes(y, n).reverse(),
{
    lemma_le_bytes_len(y, n);
    let r = le_bytes(y, n).reverse();
    assert(r.len() == n);
    lemma_bytes_of_value(r);
}

/// Adds `delta` to (`direction`) or subtracts it from the integer of `size`
/// bytes at `off`, wrapping at its width; `swap_endian` reads and writes it
/// byte-reversed. Signed and unsigned wrapping give the same bytes, so
/// `sign` does not change the result.
pub fn update_val_in_buf(
    buf: &mut Vec<u8>,
    sign: bool,
    off: usize,
    size: usize,
    direction: bool,
    swap_endian: bool,
    delta: u64,
)
    requires
        is_int_size(size),
        off + size <= old(buf).len(),
    ensures
        final(buf)@ == write_seg(
            old(buf)@,
            off as int,
            updated_seg(old(buf)@.subrange(off as int, off + size), swap_endian, direction, delta),
        ),
{
    let ghost seg = buf@.subrange(off as int, off + size);
    let mut val = get_val_in_buf(buf, off, size);
    if swap_endian {
        val = reverse_endian(val, size);
        proof {
            lemma_reverse_read(seg);
        }
    }
    assert(val == seg_value(seg, swap_endian));
    let w = width_of(size);
    proof {
        lemma_le_value_bound(seg);
        lemma_le_value_bound(seg.reverse());
        lemma_byte_range_values();
    }
    let dm: u128 = delta as u128 % w;
    let y128: u128 = if direction {
        (val as u128 + dm) % w
    } else {
        (val as u128 + (w - dm)) % w
    };
    proof {
        let x = val as int;
        let wi = w as int;
        if direction {
            vstd::arithmetic::div_mod::lemma_add_mod_noop_right(x, delta as int, wi);
        } else {
            vstd::arithmetic::div_mod::lemma_sub_mod_noop_right(x, delta as int, wi);
            vstd::arithmetic::div_mod::lemma_mod_add_multiples_vanish(x - dm, wi);
        }
    }
    let mut y: u64 = y128 as u64;
    if swap_endian {
        y = reverse_endian(y, size);
        proof {
            lemma_reverse_write(y128 as nat, size as nat);
        }
    }
    set_val_in_buf(buf, off, size, y);
}

/// Inserts `to_insert` before position `to`.
pub fn insert_partial_buf(buf: &mut Vec<u8>, to_insert: Vec<u8>, to: usize)
    requires
        to <= old(buf).len(),
    ensures
        final(buf)@ == old(buf)@.subrange(0, to as int) + to_insert@ + old(buf)@.subrange(
            to as int,
            old(buf).len() as int,
        ),
{
    let mut new_buf: Vec<u8> = Vec::new();
    let mut i: usize = 0;
    while i < to
        invariant
            i <= to <= buf.len(),
            new_buf@ =~= buf@.subrange(0, i as int),
        decreases to - i,
    {
        new_buf.push(buf[i]);
        i = i + 1;
    }
    let mut j: usize = 0;
    while j < to_insert.len()
        invariant
            j <= to_insert.len(),
            to <= buf.len(),
            new_buf@ =~= buf@.subrange(0, to as int) + to_insert@.subrange(0, j as int),
        decreases to_insert.len() - j,
    {
        new_buf.push(to_insert[j]);
        j = j + 1;
    }
    let mut k: usize = to;
    while k < buf.len()
        invariant
            to <= k <= buf.len(),
            new_buf@ =~= buf@.subrange(0, to as int) + to_insert@ + buf@.subrange(to as int, k as int),
        decreases buf.len() - k,
    {
        new_buf.push(buf[k]);
        k = k + 1;
    }
    *buf = new_buf;
}

/// Copies the `size` bytes at `from` over those at `to`; the ranges may
/// overlap.
pub fn overwrite_partial_buf(buf: &mut Vec<u8>, from: usize, size: usize, to: usize)
    requires
        from + size <= old(buf).len(),
        to + size <= old(buf).len(),
    ensures
        final(buf)@ == write_seg(old(buf)@, to as int, old(buf)@.subrange(from as int, from + size)),
{
    let mut part: Vec<u8> = Vec::new();
    let mut i: usize = 0;
    while i < size
        invariant
            i <= size,
            from + size <= buf.len(),
            part@ =~= buf@.subrange(from as int, from + i),
        decreases size - i,
    {
        part.push(buf[from + i]);
        i = i + 1;
    }
    let ghost before = buf@;
    let mut k: usize = 0;
    while k < size
        invariant
            k <= size,
            part.len() == size,
            to + size <= buf.len(),
            buf.len() == before.len(),
            buf@ =~= write_seg(before, to as int, part@.subrange(0, k as int)),
        decreases size - k,
    {
        buf.set(to + k, part[k]);
        k = k + 1;
        assert(buf@ =~= write_seg(before, to as int, part@.subrange(0, k as int)));
    }
    assert(part@.subrange(0, size as int) =~= part@);
}

} // verus!
