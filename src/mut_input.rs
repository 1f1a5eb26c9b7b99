//! Typed view of an input buffer: a sequence of non-overlapping integer
//! segments, each with a size, a signedness and a byte order.
use vstd::prelude::*;
use crate::rw::{
    byte_range, is_int_size, le_bytes, le_value, lemma_byte_range_values, lemma_bytes_of_value,
    lemma_le_bytes_len, lemma_le_value_bound, lemma_reverse_read, lemma_reverse_write,
    lemma_value_of_bytes, read_le, reverse_endian, seg_bytes, seg_value, width_of, write_le,
    write_seg,
};
use crate::sign::{Sign, SignInfo};
use crate::tag::TagSeg;
use crate::config::MUTATE_ARITH_MAX;
use crate::rw::chunk_width;

verus! {

#[derive(Clone, Copy, Debug, PartialEq, Eq, Hash)]
pub enum Endian {
    BigEndian,
    LittleEndian,
    /// One byte of a multi-byte value that is read neither way.
    Split,
}

impl Endian {
    /// The byte order given to new segments.
    pub fn from_assume_be(assume_be: bool) -> (r: Self)
        ensures
            r == (if assume_be { Endian::BigEndian } else { Endian::LittleEndian }),
    {
        if assume_be {
            Endian::BigEndian
        } else {
            Endian::LittleEndian
        }
    }
}

/// One segment of a `MutInput`.
#[derive(Clone, Copy, Debug, PartialEq, Eq, Hash)]
pub struct InputMeta {
    sign_info: SignInfo,
    sign: bool,
    pub endian: Endian,
    offset: usize,
    size: usize,
}

impl InputMeta {
    pub closed spec fn off(&self) -> nat {
        self.offset as nat
    }

    pub closed spec fn len(&self) -> nat {
        self.size as nat
    }

    pub closed spec fn signed(&self) -> bool {
        self.sign
    }

    pub closed spec fn order(&self) -> Endian {
        self.endian
    }

    pub closed spec fn info(&self) -> SignInfo {
        self.sign_info
    }

    /// Fits a buffer of `len` bytes, with an integer size and a split
    /// segment of one byte.
    pub open spec fn fits(&self, len: nat) -> bool {
        &&& is_int_size(self.len() as usize)
        &&& self.len() <= 8
        &&& self.off() + self.len() <= len
        &&& (self.order() == Endian::Split ==> self.len() == 1)
        &&& self.info().wf()
    }

    /// Number of values of the segment.
    pub open spec fn width(&self) -> int {
        byte_range(self.len()) as int
    }

    pub open spec fn lo(&self) -> int {
        if self.signed() {
            -(self.width() / 2)
        } else {
            0
        }
    }

    pub open spec fn hi(&self) -> int {
        if self.signed() {
            self.width() / 2 - 1
        } else {
            self.width() - 1
        }
    }

    pub open spec fn is_be_spec(&self) -> bool {
        self.order() == Endian::BigEndian
    }

    fn new(sign: bool, offset: usize, size: usize, endian: Endian) -> (r: Self)
        ensures
            r.signed() == sign,
            r.off() == offset,
            r.len() == size,
            r.order() == endian,
            r.info().wf(),
    {
        InputMeta { sign_info: SignInfo::from_static_sign(sign), sign, endian, offset, size }
    }

    pub fn is_le(&self) -> (r: bool)
        ensures
            r == (self.order() == Endian::LittleEndian),
    {
        match self.endian {
            Endian::LittleEndian => true,
            _ => false,
        }
    }

    pub fn is_be(&self) -> (r: bool)
        ensures
            r == self.is_be_spec(),
    {
        match self.endian {
            Endian::BigEndian => true,
            _ => false,
        }
    }

    /// Reads this segment as big-endian from now on.
    pub fn to_be(&mut self)
        ensures
            final(self).order() == Endian::BigEndian,
            final(self).off() == old(self).off(),
            final(self).len() == old(self).len(),
            final(self).signed() == old(self).signed(),
            final(self).info() == old(self).info(),
    {
        self.endian = Endian::BigEndian;
    }

    pub fn offset(&self) -> (r: usize)
        ensures
            r == self.off(),
    {
        self.offset
    }

    pub fn size(&self) -> (r: usize)
        ensures
            r == self.len(),
    {
        self.size
    }

    pub fn sign(&self) -> (r: bool)
        ensures
            r == self.signed(),
    {
        self.sign
    }

    pub fn sign_info(&self) -> (r: SignInfo)
        ensures
            r == self.info(),
    {
        self.sign_info
    }
}

/// The bytes of segment `m` in `bytes`.
pub open spec fn seg_of(bytes: Seq<u8>, m: InputMeta) -> Seq<u8> {
    bytes.subrange(m.off() as int, (m.off() + m.len()) as int)
}

/// The integer that segment `m` holds in `bytes`.
pub open spec fn value_of(bytes: Seq<u8>, m: InputMeta) -> int {
    let raw = seg_value(seg_of(bytes, m), m.is_be_spec()) as int;
    if m.signed() && raw >= m.width() / 2 {
        raw - m.width()
    } else {
        raw
    }
}

/// `bytes` with segment `m` set to `v`, wrapped to the segment's width.
pub open spec fn written(bytes: Seq<u8>, m: InputMeta, v: int) -> Seq<u8> {
    write_seg(bytes, m.off() as int, seg_bytes((v % m.width()) as nat, m.len(), m.is_be_spec()))
}

pub open spec fn clamp(v: int, lo: int, hi: int) -> int {
    if v > hi {
        hi
    } else if v < lo {
        lo
    } else {
        v
    }
}

/// `d` halved toward zero.
pub open spec fn half(d: int) -> int {
    if d >= 0 {
        d / 2
    } else {
        -((-d) / 2)
    }
}

/// Whether `cur + d` is a value of the segment and `|d|` is one too.
pub open spec fn delta_fits(cur: int, d: int, lo: int, hi: int) -> bool {
    -hi <= d <= hi && lo <= cur + d <= hi
}

/// The step that an addition of `d` actually makes: `d` halved toward zero
/// until the sum and the step are values of the segment.
pub open spec fn fit_delta(cur: int, d: int, lo: int, hi: int) -> int
    decreases (if d >= 0 { d } else { -d }),
{
    if delta_fits(cur, d, lo, hi) || d == 0 {
        d
    } else {
        fit_delta(cur, half(d), lo, hi)
    }
}

/// A value of a segment with its bounds.
#[derive(Clone, Copy, Debug, PartialEq, Eq)]
pub struct Numeral {
    pub inner: i128,
    pub upper_bound: i128,
    pub lower_bound: i128,
}

impl Numeral {
    pub fn new(inner: i128, upper_bound: i128, lower_bound: i128) -> (r: Self)
        ensures
            r == (Numeral { inner, upper_bound, lower_bound }),
    {
        Numeral { inner, upper_bound, lower_bound }
    }

    pub fn min(&self) -> (r: i128)
        ensures
            r == self.lower_bound,
    {
        self.lower_bound
    }

    pub fn set_min(&mut self)
        ensures
            *final(self) == (Numeral { inner: old(self).lower_bound, ..*old(self) }),
    {
        self.inner = self.lower_bound;
    }

    pub fn max(&self) -> (r: i128)
        ensures
            r == self.upper_bound,
    {
        self.upper_bound
    }

    pub fn set_max(&mut self)
        ensures
            *final(self) == (Numeral { inner: old(self).upper_bound, ..*old(self) }),
    {
        self.inner = self.upper_bound;
    }

    pub fn to_i128(&self) -> (r: i128)
        ensures
            r == self.inner,
    {
        self.inner
    }

    /// Adds one unless that passes the upper bound.
    pub fn inc(&mut self) -> (r: bool)
        requires
            old(self).upper_bound < i128::MAX,
        ensures
            r == (old(self).inner + 1 <= old(self).upper_bound),
            final(self).inner == (if r { old(self).inner + 1 } else { old(self).inner as int }),
            final(self).upper_bound == old(self).upper_bound,
            final(self).lower_bound == old(self).lower_bound,
    {
        if self.inner >= self.upper_bound {
            false
        } else {
            self.inner = self.inner + 1;
            true
        }
    }

    /// Subtracts one unless that passes the lower bound.
    pub fn dec(&mut self) -> (r: bool)
        requires
            old(self).lower_bound > i128::MIN,
        ensures
            r == (old(self).inner - 1 >= old(self).lower_bound),
            final(self).inner == (if r { old(self).inner - 1 } else { old(self).inner as int }),
            final(self).upper_bound == old(self).upper_bound,
            final(self).lower_bound == old(self).lower_bound,
    {
        if self.inner <= self.lower_bound {
            false
        } else {
            self.inner = self.inner - 1;
            true
        }
    }

    /// Sets the value to `v` clamped to the bounds; returns the part of `v`
    /// that did not fit.
    pub fn set(&mut self, v: i128) -> (r: i128)
        requires
            old(self).lower_bound <= old(self).upper_bound,
            old(self).lower_bound >= 0 ==> v >= i128::MIN + old(self).lower_bound,
            old(self).upper_bound <= 0 ==> v <= i128::MAX + old(self).upper_bound,
            old(self).lower_bound < 0 ==> v <= i128::MAX + old(self).lower_bound,
            old(self).upper_bound > 0 ==> v >= i128::MIN + old(self).upper_bound,
        ensures
            final(self).inner == clamp(
                v as int,
                old(self).lower_bound as int,
                old(self).upper_bound as int,
            ),
            r == v - final(self).inner,
            final(self).upper_bound == old(self).upper_bound,
            final(self).lower_bound == old(self).lower_bound,
    {
        if v > self.upper_bound {
            self.inner = self.upper_bound;
            v - self.upper_bound
        } else if v < self.lower_bound {
            self.inner = self.lower_bound;
            v - self.lower_bound
        } else {
            self.inner = v;
            0
        }
    }
}

pub open spec fn metas_fit(ms: Seq<InputMeta>, len: nat) -> bool {
    forall|i: int| 0 <= i < ms.len() ==> #[trigger] ms[i].fits(len)
}

pub open spec fn metas_ordered(ms: Seq<InputMeta>) -> bool {
    forall|i: int, j: int|
        0 <= i < j < ms.len() ==> #[trigger] ms[i].off() + ms[i].len() <= #[trigger] ms[j].off()
}

/// The byte buffer and its segments.
#[derive(Clone, Debug, PartialEq, Eq, Hash)]
pub struct MutInput {
    value: Vec<u8>,
    meta: Vec<InputMeta>,
}

impl MutInput {
    pub closed spec fn bytes(&self) -> Seq<u8> {
        self.value@
    }

    pub closed spec fn metas(&self) -> Seq<InputMeta> {
        self.meta@
    }

    /// Every segment fits the buffer and segments follow each other
    /// without overlap.
    pub open spec fn wf(&self) -> bool {
        &&& metas_fit(self.metas(), self.bytes().len())
        &&& metas_ordered(self.metas())
    }

    /// The integer that segment `i` holds.
    pub open spec fn nth_spec(&self, i: int) -> int {
        value_of(self.bytes(), self.metas()[i])
    }

    pub fn new() -> (r: Self)
        ensures
            r.bytes().len() == 0,
            r.metas().len() == 0,
            r.wf(),
    {
        MutInput { value: Vec::new(), meta: Vec::new() }
    }

    pub fn get_meta(&self) -> (r: &Vec<InputMeta>)
        ensures
            r@ == self.metas(),
    {
        &self.meta
    }

    pub fn take(self) -> (r: (Vec<u8>, Vec<InputMeta>))
        ensures
            r.0@ == self.bytes(),
            r.1@ == self.metas(),
    {
        (self.value, self.meta)
    }

    pub fn is_value_identical(&self, other: &Vec<u8>) -> (r: bool)
        ensures
            r == (self.bytes() == other@),
    {
        if self.value.len() != other.len() {
            return false;
        }
        let mut i: usize = 0;
        while i < self.value.len()
            invariant
                i <= self.value.len() == other.len(),
                forall|k: int| 0 <= k < i ==> self.value@[k] == other@[k],
            decreases self.value.len() - i,
        {
            if self.value[i] != other[i] {
                return false;
            }
            i = i + 1;
        }
        assert(self.value@ =~= other@);
        true
    }

    pub fn clone_value(&self) -> (r: Vec<u8>)
        ensures
            r@ == self.bytes(),
    {
        self.value.clone()
    }

    pub fn get_value(&self) -> (r: Vec<u8>)
        ensures
            r@ == self.bytes(),
    {
        self.value.clone()
    }

    /// Replaces the buffer by one of the same length.
    pub fn apply_value(&mut self, value: Vec<u8>)
        requires
            old(self).wf(),
            value.len() == old(self).bytes().len(),
        ensures
            final(self).wf(),
            final(self).bytes() == value@,
            final(self).metas() == old(self).metas(),
    {
        self.value = value;
    }

    pub fn set_value_from_input(&mut self, input: &MutInput)
        requires
            old(self).wf(),
            input.bytes().len() == old(self).bytes().len(),
        ensures
            final(self).wf(),
            final(self).bytes() == input.bytes(),
            final(self).metas() == old(self).metas(),
    {
        self.value = input.get_value();
    }

    /// Number of segments.
    pub fn len(&self) -> (r: usize)
        ensures
            r == self.metas().len(),
    {
        self.meta.len()
    }

    /// Number of bytes.
    pub fn val_len(&self) -> (r: usize)
        ensures
            r == self.bytes().len(),
    {
        self.value.len()
    }

    /// The stored bits of segment `index`, read little-endian.
    pub fn get_entry(&self, index: usize) -> (r: u64)
        requires
            self.wf(),
            index < self.metas().len(),
        ensures
            r == le_value(seg_of(self.bytes(), self.metas()[index as int])),
    {
        let m = &self.meta[index];
        assert(self.metas()[index as int].fits(self.bytes().len()));
        read_le(&self.value, m.offset, m.size)
    }

    pub fn get_entry_len(&self, index: usize) -> (r: usize)
        requires
            index < self.metas().len(),
        ensures
            r == self.metas()[index as int].len(),
    {
        self.meta[index].size
    }

    /// Stores the low bytes of `val` in segment `index`, little-endian.
    pub fn set(&mut self, index: usize, val: u64)
        requires
            old(self).wf(),
            index < old(self).metas().len(),
        ensures
            final(self).wf(),
            final(self).metas() == old(self).metas(),
            final(self).bytes() == write_seg(
                old(self).bytes(),
                old(self).metas()[index as int].off() as int,
                le_bytes(val as nat, old(self).metas()[index as int].len()),
            ),
    {
        let offset = self.meta[index].offset;
        let size = self.meta[index].size;
        assert(self.metas()[index as int].fits(self.bytes().len()));
        write_le(&mut self.value, offset, size, val);
    }

    /// Copies the head of `val` over the head of the buffer.
    pub fn assign(&mut self, val: &Vec<u8>)
        requires
            old(self).wf(),
        ensures
            final(self).wf(),
            final(self).metas() == old(self).metas(),
            final(self).bytes() == write_seg(
                old(self).bytes(),
                0,
                val@.subrange(
                    0,
                    if val.len() < old(self).bytes().len() {
                        val.len() as int
                    } else {
                        old(self).bytes().len() as int
                    },
                ),
            ),
    {
        let l = if val.len() < self.value.len() {
            val.len()
        } else {
            self.value.len()
        };
        let ghost before = self.value@;
        let mut i: usize = 0;
        while i < l
            invariant
                i <= l <= val.len(),
                l <= self.value.len(),
                self.value.len() == before.len(),
                self.meta@ == old(self).meta@,
                before == old(self).value@,
                self.value@ =~= write_seg(before, 0, val@.subrange(0, i as int)),
            decreases l - i,
        {
            self.value.set(i, val[i]);
            i = i + 1;
            assert(self.value@ =~= write_seg(before, 0, val@.subrange(0, i as int)));
        }
    }

    /// Flips bit `i`, counting from the most significant bit of byte 0.
    pub fn bitflip(&mut self, i: usize)
        requires
            old(self).wf(),
            i / 8 < old(self).bytes().len(),
        ensures
            final(self).wf(),
            final(self).metas() == old(self).metas(),
            final(self).bytes() == old(self).bytes().update(
                (i / 8) as int,
                old(self).bytes()[(i / 8) as int] ^ ((128u8 >> ((i % 8) as u8)) as u8),
            ),
    {
        let byte_i = i / 8;
        let bit_i = (i % 8) as u8;
        let b = self.value[byte_i] ^ (128u8 >> bit_i);
        self.value.set(byte_i, b);
    }
}


/// Storing a value of the segment's width and reading it back in the same
/// byte order gives the value.
pub proof fn lemma_seg_round_trip(u: nat, n: nat, be: bool)
    requires
        u < byte_range(n),
    ensures
        seg_bytes(u, n, be).len() == n,
        seg_value(seg_bytes(u, n, be), be) == u,
{
    lemma_le_bytes_len(u, n);
    lemma_value_of_bytes(u, n);
    vstd::arithmetic::div_mod::lemma_small_mod(u, byte_range(n));
    if be {
        let s = le_bytes(u, n);
        assert(s.reverse().reverse() =~= s);
    }
}

proof fn lemma_width_facts(m: InputMeta)
    requires
        is_int_size(m.len() as usize),
        m.len() <= 8,
    ensures
        m.width() >= 256,
        m.width() % 2 == 0,
        m.width() <= 0x1_0000_0000_0000_0000,
        m.lo() <= 0 < m.hi(),
        m.hi() < m.width(),
        m.lo() > -m.width(),
{
    lemma_byte_range_values();
}

/// Every segment holds a value within its bounds.
pub proof fn lemma_value_in_bounds(bytes: Seq<u8>, m: InputMeta)
    requires
        m.fits(bytes.len()),
    ensures
        m.lo() <= value_of(bytes, m) <= m.hi(),
{
    lemma_width_facts(m);
    let seg = seg_of(bytes, m);
    lemma_le_value_bound(seg);
    lemma_le_value_bound(seg.reverse());
}

/// Writing a value within the bounds and reading it back gives the value.
pub proof fn lemma_written_read(bytes: Seq<u8>, m: InputMeta, v: int)
    requires
        m.fits(bytes.len()),
        m.lo() <= v <= m.hi(),
    ensures
        written(bytes, m, v).len() == bytes.len(),
        value_of(written(bytes, m, v), m) == v,
        forall|k: int|
            0 <= k < bytes.len() && !(m.off() <= k < m.off() + m.len()) ==> #[trigger] written(
                bytes,
                m,
                v,
            )[k] == bytes[k],
{
    lemma_width_facts(m);
    let w = m.width();
    let u = v % w;
    if v >= 0 {
        vstd::arithmetic::div_mod::lemma_small_mod(v as nat, w as nat);
    } else {
        vstd::arithmetic::div_mod::lemma_fundamental_div_mod_converse(v, w, -1, v + w);
    }
    lemma_seg_round_trip(u as nat, m.len(), m.is_be_spec());
    let sb = seg_bytes(u as nat, m.len(), m.is_be_spec());
    assert(seg_of(written(bytes, m, v), m) =~= sb);
}

/// Writing back the value a segment holds leaves the bytes as they are.
pub proof fn lemma_written_self(bytes: Seq<u8>, m: InputMeta)
    requires
        m.fits(bytes.len()),
    ensures
        written(bytes, m, value_of(bytes, m)) == bytes,
{
    lemma_width_facts(m);
    let w = m.width();
    let seg = seg_of(bytes, m);
    let raw = seg_value(seg, m.is_be_spec()) as int;
    let v = value_of(bytes, m);
    lemma_le_value_bound(seg);
    lemma_le_value_bound(seg.reverse());
    if v >= 0 {
        vstd::arithmetic::div_mod::lemma_small_mod(v as nat, w as nat);
    } else {
        vstd::arithmetic::div_mod::lemma_fundamental_div_mod_converse(v, w, -1, v + w);
    }
    assert(v % w == raw);
    if m.is_be_spec() {
        lemma_bytes_of_value(seg.reverse());
        assert(seg.reverse().reverse() =~= seg);
    } else {
        lemma_bytes_of_value(seg);
    }
    assert(written(bytes, m, v) =~= bytes);
}

/// A second write of the same segment replaces the first.
pub proof fn lemma_written_twice(bytes: Seq<u8>, m: InputMeta, v1: int, v2: int)
    requires
        m.fits(bytes.len()),
    ensures
        written(written(bytes, m, v1), m, v2) == written(bytes, m, v2),
{
    lemma_width_facts(m);
    let w = m.width();
    lemma_seg_round_trip((v1 % w) as nat, m.len(), m.is_be_spec());
    lemma_seg_round_trip((v2 % w) as nat, m.len(), m.is_be_spec());
    assert(written(written(bytes, m, v1), m, v2) =~= written(bytes, m, v2));
}

/// The step of an addition is never larger than the request and always
/// lands within the bounds.
pub proof fn lemma_fit_delta(cur: int, d: int, lo: int, hi: int)
    requires
        lo <= cur <= hi,
        lo <= 0 <= hi,
    ensures
        delta_fits(cur, fit_delta(cur, d, lo, hi), lo, hi),
        d >= 0 ==> 0 <= fit_delta(cur, d, lo, hi) <= d,
        d < 0 ==> d <= fit_delta(cur, d, lo, hi) <= 0,
    decreases (if d >= 0 { d } else { -d }),
{
    if delta_fits(cur, d, lo, hi) || d == 0 {
    } else {
        lemma_fit_delta(cur, half(d), lo, hi);
    }
}

/// A value set by `set_nth_` reads back as the request clamped to the
/// segment's bounds.
pub proof fn lemma_set_then_read(bytes: Seq<u8>, m: InputMeta, v: int)
    requires
        m.fits(bytes.len()),
    ensures
        value_of(written(bytes, m, clamp(v, m.lo(), m.hi())), m) == clamp(v, m.lo(), m.hi()),
{
    lemma_width_facts(m);
    lemma_written_read(bytes, m, clamp(v, m.lo(), m.hi()));
}

/// Adding `k` and then `-k` to a segment gives back the original bytes
/// whenever the first addition was not cut short by the bounds.
pub proof fn lemma_add_then_sub_restores(bytes: Seq<u8>, m: InputMeta, k: int)
    requires
        m.fits(bytes.len()),
        fit_delta(value_of(bytes, m), k, m.lo(), m.hi()) == k,
    ensures
        ({
            let b1 = written(bytes, m, value_of(bytes, m) + k);
            &&& fit_delta(value_of(b1, m), -k, m.lo(), m.hi()) == -k
            &&& written(b1, m, value_of(b1, m) + (-k)) == bytes
        }),
{
    let cur = value_of(bytes, m);
    lemma_width_facts(m);
    lemma_value_in_bounds(bytes, m);
    lemma_fit_delta(cur, k, m.lo(), m.hi());
    let b1 = written(bytes, m, cur + k);
    lemma_written_read(bytes, m, cur + k);
    assert(delta_fits(cur + k, -k, m.lo(), m.hi()));
    lemma_written_twice(bytes, m, cur + k, cur);
    lemma_written_self(bytes, m);
}

impl MutInput {
    /// The value of segment `index` with the bounds of its type.
    pub fn nth_val(&self, index: usize) -> (r: Numeral)
        requires
            self.wf(),
            index < self.metas().len(),
        ensures
            r.inner == self.nth_spec(index as int),
            r.lower_bound == self.metas()[index as int].lo(),
            r.upper_bound == self.metas()[index as int].hi(),
    {
        let m = &self.meta[index];
        let ghost gm = self.metas()[index as int];
        assert(gm.fits(self.bytes().len()));
        let ghost seg = seg_of(self.bytes(), gm);
        let raw0 = read_le(&self.value, m.offset, m.size);
        let raw: u64 = if m.is_be() {
            proof {
                lemma_reverse_read(seg);
            }
            reverse_endian(raw0, m.size)
        } else {
            raw0
        };
        assert(raw == seg_value(seg, gm.is_be_spec()));
        let w = width_of(m.size);
        proof {
            lemma_width_facts(gm);
            lemma_le_value_bound(seg);
            lemma_le_value_bound(seg.reverse());
        }
        let wi = w as i128;
        let v: i128 = if m.sign && (raw as u128) >= w / 2 {
            raw as i128 - wi
        } else {
            raw as i128
        };
        let lo: i128 = if m.sign {
            -(wi / 2)
        } else {
            0
        };
        let hi: i128 = if m.sign {
            wi / 2 - 1
        } else {
            wi - 1
        };
        Numeral { inner: v, upper_bound: hi, lower_bound: lo }
    }

    /// Stores `val` in segment `idx` in the segment's byte order.
    fn write_nth_val(&mut self, idx: usize, val: i128)
        requires
            old(self).wf(),
            idx < old(self).metas().len(),
            old(self).metas()[idx as int].lo() <= val <= old(self).metas()[idx as int].hi(),
        ensures
            final(self).wf(),
            final(self).metas() == old(self).metas(),
            final(self).bytes() == written(old(self).bytes(), old(self).metas()[idx as int], val as int),
    {
        let ghost gm = self.metas()[idx as int];
        assert(gm.fits(self.bytes().len()));
        proof {
            lemma_width_facts(gm);
        }
        let offset = self.meta[idx].offset;
        let size = self.meta[idx].size;
        let be = self.meta[idx].is_be();
        let w = width_of(size) as i128;
        let u: u64 = if val < 0 {
            (val + w) as u64
        } else {
            val as u64
        };
        proof {
            if val >= 0 {
                vstd::arithmetic::div_mod::lemma_small_mod(val as nat, w as nat);
            } else {
                vstd::arithmetic::div_mod::lemma_fundamental_div_mod_converse(
                    val as int,
                    w as int,
                    -1,
                    val + w,
                );
            }
        }
        assert(u == (val as int) % (w as int));
        let x: u64 = if be {
            proof {
                lemma_reverse_write(u as nat, size as nat);
            }
            reverse_endian(u, size)
        } else {
            u
        };
        proof {
            lemma_seg_round_trip(u as nat, size as nat, be);
        }
        write_le(&mut self.value, offset, size, x);
    }

    /// Adds `delta` to segment `index`, halving it toward zero until both
    /// the step and the sum are values of the segment; returns the step
    /// made (0 when the segment is already at its bound).
    pub fn add_nth(&mut self, index: usize, delta: i128) -> (r: i128)
        requires
            old(self).wf(),
            index < old(self).metas().len(),
        ensures
            final(self).wf(),
            final(self).metas() == old(self).metas(),
            r == fit_delta(
                old(self).nth_spec(index as int),
                delta as int,
                old(self).metas()[index as int].lo(),
                old(self).metas()[index as int].hi(),
            ),
            final(self).bytes() == written(
                old(self).bytes(),
                old(self).metas()[index as int],
                old(self).nth_spec(index as int) + r,
            ),
            final(self).nth_spec(index as int) == old(self).nth_spec(index as int) + r,
    {
        let n = self.nth_val(index);
        let cur = n.inner;
        let lo = n.lower_bound;
        let hi = n.upper_bound;
        let ghost gm = self.metas()[index as int];
        proof {
            assert(gm.fits(self.bytes().len()));
            lemma_width_facts(gm);
            lemma_value_in_bounds(self.bytes(), gm);
        }
        let mut d: i128 = delta;
        while !((d >= -hi && d <= hi && cur + d >= lo && cur + d <= hi) || d == 0)
            invariant
                lo == gm.lo(),
                hi == gm.hi(),
                lo <= 0 < hi < 0x1_0000_0000_0000_0000,
                lo > -0x1_0000_0000_0000_0000,
                lo <= cur <= hi,
                fit_delta(cur as int, d as int, lo as int, hi as int) == fit_delta(
                    cur as int,
                    delta as int,
                    lo as int,
                    hi as int,
                ),
            decreases (if d >= 0 { d as int } else { -d }),
        {
            if d >= 0 {
                d = d / 2;
            } else if d == i128::MIN {
                d = -0x4000_0000_0000_0000_0000_0000_0000_0000;
            } else {
                d = -((-d) / 2);
            }
        }
        proof {
            lemma_fit_delta(cur as int, delta as int, lo as int, hi as int);
        }
        self.write_nth_val(index, cur + d);
        proof {
            lemma_written_read(old(self).bytes(), gm, cur + d);
        }
        d
    }

    /// Sets segment `index` to `val` clamped to its bounds; returns the
    /// value set.
    pub fn set_nth(&mut self, index: usize, val: i128) -> (r: i128)
        requires
            old(self).wf(),
            index < old(self).metas().len(),
        ensures
            final(self).wf(),
            final(self).metas() == old(self).metas(),
            r == clamp(val as int, old(self).metas()[index as int].lo(), old(self).metas()[index as int].hi()),
            final(self).nth_spec(index as int) == r,
            final(self).bytes() == written(old(self).bytes(), old(self).metas()[index as int], r as int),
    {
        self.set_nth_(index, val)
    }

    /// Adds `v` to segment `idx` with the sum clamped to the bounds;
    /// returns the step made.
    pub fn add_nth_(&mut self, idx: usize, v: i128) -> (r: i128)
        requires
            old(self).wf(),
            idx < old(self).metas().len(),
            i128::MIN + 0x1_0000_0000_0000_0000 <= v <= i128::MAX - 0x1_0000_0000_0000_0000,
        ensures
            final(self).wf(),
            final(self).metas() == old(self).metas(),
            r == clamp(
                old(self).nth_spec(idx as int) + v,
                old(self).metas()[idx as int].lo(),
                old(self).metas()[idx as int].hi(),
            ) - old(self).nth_spec(idx as int),
            final(self).bytes() == written(
                old(self).bytes(),
                old(self).metas()[idx as int],
                old(self).nth_spec(idx as int) + r,
            ),
    {
        let old_val = self.nth_val(idx);
        proof {
            assert(self.metas()[idx as int].fits(self.bytes().len()));
            lemma_width_facts(self.metas()[idx as int]);
            lemma_value_in_bounds(self.bytes(), self.metas()[idx as int]);
        }
        let target = old_val.inner + v;
        let new_val = if target > old_val.upper_bound {
            old_val.upper_bound
        } else if target < old_val.lower_bound {
            old_val.lower_bound
        } else {
            target
        };
        self.write_nth_val(idx, new_val);
        new_val - old_val.inner
    }

    /// Sets segment `index` to `v` clamped to its bounds; returns the value
    /// set.
    pub fn set_nth_(&mut self, index: usize, v: i128) -> (r: i128)
        requires
            old(self).wf(),
            index < old(self).metas().len(),
        ensures
            final(self).wf(),
            final(self).metas() == old(self).metas(),
            r == clamp(v as int, old(self).metas()[index as int].lo(), old(self).metas()[index as int].hi()),
            final(self).bytes() == written(old(self).bytes(), old(self).metas()[index as int], r as int),
            final(self).nth_spec(index as int) == r,
    {
        let cur = self.nth_val(index);
        proof {
            assert(self.metas()[index as int].fits(self.bytes().len()));
            lemma_width_facts(self.metas()[index as int]);
        }
        let new_val = if v > cur.upper_bound {
            cur.upper_bound
        } else if v < cur.lower_bound {
            cur.lower_bound
        } else {
            v
        };
        self.write_nth_val(index, new_val);
        proof {
            lemma_written_read(old(self).bytes(), old(self).metas()[index as int], new_val as int);
        }
        new_val
    }
}

/// The bytes of segment `o` of `input`, with zeros past its end.
pub open spec fn padded(o: TagSeg, input: Seq<u8>) -> Seq<u8> {
    if o.begin < o.end {
        Seq::new(
            (o.end - o.begin) as nat,
            |k: int| if o.begin + k < input.len() { input[o.begin + k] } else { 0u8 },
        )
    } else {
        Seq::empty()
    }
}

/// The buffer that `MutInput::from` builds: the tainted ranges, padded,
/// one after another.
pub open spec fn gather_padded(offs: Seq<TagSeg>, input: Seq<u8>) -> Seq<u8>
    decreases offs.len(),
{
    if offs.len() == 0 {
        Seq::empty()
    } else {
        padded(offs[0], input) + gather_padded(offs.drop_first(), input)
    }
}

/// Offset, size and signedness of a segment.
pub open spec fn shape(m: InputMeta) -> (nat, nat, bool) {
    (m.off(), m.len(), m.signed())
}

/// The segments that a range of `w` bytes placed at `base` becomes: one of
/// an integer size, else one per byte.
pub open spec fn seg_shapes(w: nat, base: nat, sign: bool) -> Seq<(nat, nat, bool)> {
    if w == 1 || w == 2 || w == 4 || w == 8 {
        seq![(base, w, sign)]
    } else {
        Seq::new(w, |k: int| ((base + k) as nat, 1nat, sign))
    }
}

/// The segments of the tainted ranges laid one after another from `base`.
pub open spec fn shapes_of(offs: Seq<TagSeg>, base: nat) -> Seq<(nat, nat, bool)>
    decreases offs.len(),
{
    if offs.len() == 0 {
        Seq::empty()
    } else {
        seg_shapes(chunk_width(offs[0]), base, offs[0].sign) + shapes_of(
            offs.drop_first(),
            base + chunk_width(offs[0]),
        )
    }
}

pub open spec fn shapes(ms: Seq<InputMeta>) -> Seq<(nat, nat, bool)> {
    ms.map_values(|m: InputMeta| shape(m))
}

/// A one-byte segment at `off`.
pub open spec fn byte_meta(m: InputMeta, off: int, endian: Endian) -> bool {
    m.off() == off && m.len() == 1 && m.order() == endian && m.info().wf()
}

impl MutInput {
    /// Appends `ele` as one segment if its length is an integer size, else
    /// as one-byte segments.
    fn push(&mut self, ele: Vec<u8>, sign: bool, endian: Endian)
        requires
            old(self).wf(),
            old(self).bytes().len() + ele.len() <= usize::MAX,
            endian != Endian::Split,
        ensures
            final(self).wf(),
            final(self).bytes() == old(self).bytes() + ele@,
            final(self).metas().len() == old(self).metas().len() + seg_shapes(
                ele.len() as nat,
                old(self).bytes().len(),
                sign,
            ).len(),
            forall|i: int| 0 <= i < old(self).metas().len() ==> #[trigger] final(self).metas()[i] == old(self).metas()[i],
            forall|j: int|
                old(self).metas().len() <= j < final(self).metas().len() ==> shape(#[trigger] final(self).metas()[j])
                    == seg_shapes(ele.len() as nat, old(self).bytes().len(), sign)[j - old(self).metas().len()],
            forall|j: int|
                old(self).metas().len() <= j < final(self).metas().len() ==> #[trigger] final(self).metas()[j].order()
                    == endian,
    {
        let base = self.value.len();
        let n = ele.len();
        let ghost old_metas = self.metas();
        let ghost new_len = (base + n) as nat;
        proof {
            lemma_byte_range_values();
            assert forall|i: int| 0 <= i < old_metas.len() implies #[trigger] old_metas[i].fits(new_len) by {
                assert(old_metas[i].fits(base as nat));
            }
        }
        if n == 1 || n == 2 || n == 4 || n == 8 {
            let m = InputMeta::new(sign, base, n, endian);
            let ghost before = self.metas();
            self.meta.push(m);
            proof {
                assert(self.metas() == before.push(m));
                assert forall|i: int| 0 <= i < self.metas().len() implies #[trigger] self.metas()[i].fits(
                    new_len,
                ) by {
                    if i < before.len() {
                        assert(before[i].fits(new_len));
                    } else {
                        assert(self.metas()[i] == m);
                    }
                }
                assert forall|i: int, j: int|
                    0 <= i < j < self.metas().len() implies #[trigger] self.metas()[i].off()
                    + self.metas()[i].len() <= #[trigger] self.metas()[j].off() by {
                    if j == old_metas.len() {
                        assert(old_metas[i].fits(base as nat));
                    }
                }
            }
        } else {
            let mut k: usize = 0;
            while k < n
                invariant
                    k <= n,
                    base + n <= usize::MAX,
                    n == ele.len(),
                    !(n == 1 || n == 2 || n == 4 || n == 8),
                    self.value.len() == base,
                    self.value@ == old(self).value@,
                    new_len == base + n,
                    endian != Endian::Split,
                    self.metas().len() == old_metas.len() + k,
                    forall|i: int| 0 <= i < old_metas.len() ==> #[trigger] self.metas()[i] == old_metas[i],
                    forall|i: int| 0 <= i < old_metas.len() ==> #[trigger] old_metas[i].fits(base as nat),
                    metas_ordered(old_metas),
                    forall|j: int|
                        old_metas.len() <= j < self.metas().len() ==> byte_meta(
                            #[trigger] self.metas()[j],
                            base + (j - old_metas.len()),
                            endian,
                        ),
                    forall|j: int| old_metas.len() <= j < self.metas().len() ==> (#[trigger] self.metas()[j]).signed() == sign,
                    metas_fit(self.metas(), new_len),
                    metas_ordered(self.metas()),
                decreases n - k,
            {
                let m = InputMeta::new(sign, base + k, 1, endian);
                assert(m.fits(new_len));
                let ghost before = self.metas();
                self.meta.push(m);
                proof {
                    assert(self.metas() == before.push(m));
                    assert(self.metas()[before.len() as int] == m);
                    assert forall|i: int| 0 <= i < self.metas().len() implies #[trigger] self.metas()[i].fits(
                        new_len,
                    ) by {
                        if i < before.len() {
                            assert(before[i].fits(new_len));
                        } else {
                            assert(self.metas()[i] == m);
                        }
                    }
                    assert forall|j: int|
                        old_metas.len() <= j < self.metas().len() implies byte_meta(
                            #[trigger] self.metas()[j],
                            base + (j - old_metas.len()),
                            endian,
                        ) by {
                        if j < before.len() {
                            assert(self.metas()[j] == before[j]);
                        } else {
                            assert(self.metas()[j] == m);
                            assert(j - old_metas.len() == k);
                        }
                    }
                    assert forall|j: int| old_metas.len() <= j < self.metas().len() implies (#[trigger] self.metas()[j]).signed() == sign by {
                        if j < before.len() {
                            assert(self.metas()[j] == before[j]);
                        } else {
                            assert(self.metas()[j] == m);
                        }
                    }
                    assert forall|i: int, j: int|
                        0 <= i < j < self.metas().len() implies #[trigger] self.metas()[i].off()
                        + self.metas()[i].len() <= #[trigger] self.metas()[j].off() by {
                        if j == before.len() {
                            if i < old_metas.len() {
                                assert(old_metas[i].fits(base as nat));
                            }
                        } else {
                            assert(before[i] == self.metas()[i]);
                            assert(before[j] == self.metas()[j]);
                        }
                    }
                }
                k = k + 1;
            }
        }
        let mut e = ele;
        let ghost ms = self.metas();
        self.value.append(&mut e);
        assert(self.bytes().len() == new_len);
        assert(self.metas() == ms);
    }

    /// Builds the view of the tainted ranges of `input`: each range with an
    /// integer width becomes one segment, any other one segment per byte.
    /// Ranges past the end of `input` are filled with zeros.
    pub fn from(offsets: &Vec<TagSeg>, input: &Vec<u8>, assume_be: bool) -> (r: Self)
        requires
            forall|i: int| 0 <= i < offsets@.len() ==> #[trigger] offsets@[i].begin <= offsets@[i].end,
            crate::rw::total_width(offsets@) <= usize::MAX,
        ensures
            r.wf(),
            r.bytes() == gather_padded(offsets@, input@),
            shapes(r.metas()) == shapes_of(offsets@, 0),
            forall|i: int| 0 <= i < r.metas().len() ==> #[trigger] r.metas()[i].order() == (if assume_be {
                Endian::BigEndian
            } else {
                Endian::LittleEndian
            }),
    {
        let endian = Endian::from_assume_be(assume_be);
        let mut mut_input = MutInput::new();
        let len = input.len();
        let mut i: usize = 0;
        assert(offsets@.subrange(0, offsets.len() as int) =~= offsets@);
        assert(shapes(mut_input.metas()) =~= Seq::<(nat, nat, bool)>::empty());
        while i < offsets.len()
            invariant
                i <= offsets.len(),
                len == input.len(),
                mut_input.wf(),
                endian != Endian::Split,
                endian == (if assume_be { Endian::BigEndian } else { Endian::LittleEndian }),
                mut_input.bytes() + gather_padded(offsets@.subrange(i as int, offsets.len() as int), input@)
                    == gather_padded(offsets@, input@),
                mut_input.bytes().len() + crate::rw::total_width(offsets@.subrange(i as int, offsets.len() as int))
                    == crate::rw::total_width(offsets@),
                shapes(mut_input.metas()) + shapes_of(
                    offsets@.subrange(i as int, offsets.len() as int),
                    mut_input.bytes().len(),
                ) == shapes_of(offsets@, 0),
                crate::rw::total_width(offsets@) <= usize::MAX,
                forall|k: int| 0 <= k < mut_input.metas().len() ==> #[trigger] mut_input.metas()[k].order() == endian,
            decreases offsets.len() - i,
        {
            let off = offsets[i];
            let ghost rest = offsets@.subrange(i as int, offsets.len() as int);
            assert(rest.drop_first() =~= offsets@.subrange(i + 1, offsets.len() as int));
            assert(rest[0] == off);
            if off.begin < off.end {
                let begin = off.begin as usize;
                let end = off.end as usize;
                let mut v: Vec<u8> = Vec::new();
                let mut k: usize = begin;
                while k < end
                    invariant
                        begin <= k <= end,
                        begin == off.begin,
                        end == off.end,
                        len == input.len(),
                        v@ =~= padded(off, input@).subrange(0, k - begin),
                    decreases end - k,
                {
                    if k < len {
                        v.push(input[k]);
                    } else {
                        v.push(0u8);
                    }
                    k = k + 1;
                    assert(v@ =~= padded(off, input@).subrange(0, k - begin));
                }
                assert(v@ =~= padded(off, input@));
                let ghost before = mut_input.metas();
                let ghost base = mut_input.bytes().len();
                mut_input.push(v, off.sign, endian);
                assert(mut_input.bytes() + gather_padded(offsets@.subrange(i + 1, offsets.len() as int), input@)
                    =~= gather_padded(offsets@, input@));
                assert forall|k: int| 0 <= k < mut_input.metas().len() implies #[trigger] mut_input.metas()[k].order()
                    == endian by {
                    if k < before.len() {
                        assert(mut_input.metas()[k] == before[k]);
                    }
                }
                proof {
                    let w = chunk_width(off);
                    assert(w == (off.end - off.begin) as nat);
                    assert(shapes(mut_input.metas()) =~= shapes(before) + seg_shapes(w, base, off.sign)) by {
                        assert forall|k: int| 0 <= k < mut_input.metas().len() implies shapes(mut_input.metas())[k]
                            == (shapes(before) + seg_shapes(w, base, off.sign))[k] by {
                            if k < before.len() {
                                assert(mut_input.metas()[k] == before[k]);
                            } else {
                                assert(shape(mut_input.metas()[k]) == seg_shapes(w, base, off.sign)[k - before.len()]);
                            }
                        }
                    }
                    assert(shapes_of(rest, base) =~= seg_shapes(w, base, off.sign) + shapes_of(
                        offsets@.subrange(i + 1, offsets.len() as int),
                        base + w,
                    ));
                }
            } else {
                assert(padded(off, input@) =~= Seq::<u8>::empty());
                assert(mut_input.bytes() + gather_padded(offsets@.subrange(i + 1, offsets.len() as int), input@)
                    =~= gather_padded(offsets@, input@));
                assert(seg_shapes(0, mut_input.bytes().len(), off.sign) =~= Seq::<(nat, nat, bool)>::empty());
                assert(shapes_of(rest, mut_input.bytes().len()) =~= shapes_of(
                    offsets@.subrange(i + 1, offsets.len() as int),
                    mut_input.bytes().len(),
                ));
            }
            i = i + 1;
        }
        assert(gather_padded(offsets@.subrange(i as int, offsets.len() as int), input@) =~= Seq::<u8>::empty());
        assert(mut_input.bytes() =~= mut_input.bytes() + Seq::<u8>::empty());
        assert(shapes(mut_input.metas()) =~= shapes(mut_input.metas()) + Seq::<(nat, nat, bool)>::empty());
        mut_input
    }
}

impl MutInput {
    /// Adds `delta` to (`direction`) or subtracts it from the stored bits
    /// of segment `index`, wrapping at its width.
    pub fn update(&mut self, index: usize, direction: bool, delta: u64)
        requires
            old(self).wf(),
            index < old(self).metas().len(),
        ensures
            final(self).wf(),
            final(self).metas() == old(self).metas(),
            final(self).bytes() == write_seg(
                old(self).bytes(),
                old(self).metas()[index as int].off() as int,
                crate::rw::updated_seg(
                    seg_of(old(self).bytes(), old(self).metas()[index as int]),
                    false,
                    direction,
                    delta,
                ),
            ),
    {
        let sign = self.meta[index].sign;
        let offset = self.meta[index].offset;
        let size = self.meta[index].size;
        assert(self.metas()[index as int].fits(self.bytes().len()));
        crate::rw::update_val_in_buf(&mut self.value, sign, offset, size, direction, false, delta);
    }

    /// Adds one to the last segment of `idxs` that is below its upper bound,
    /// trying from the end; false, with the bytes unchanged, when none is.
    pub fn inc_lsb(&mut self, idxs: &Vec<usize>) -> (r: bool)
        requires
            old(self).wf(),
            forall|k: int| 0 <= k < idxs.len() ==> #[trigger] idxs@[k] < old(self).metas().len(),
        ensures
            final(self).wf(),
            final(self).metas() == old(self).metas(),
            r == exists|k: int|
                0 <= k < idxs.len() && old(self).nth_spec(#[trigger] idxs@[k] as int) < old(
                    self,
                ).metas()[idxs@[k] as int].hi(),
            !r ==> final(self).bytes() == old(self).bytes(),
            r ==> exists|j: int|
                0 <= j < idxs.len() && old(self).nth_spec(#[trigger] idxs@[j] as int) < old(
                    self,
                ).metas()[idxs@[j] as int].hi() && (forall|k: int|
                    j < k < idxs.len() ==> old(self).nth_spec(#[trigger] idxs@[k] as int) == old(
                        self,
                    ).metas()[idxs@[k] as int].hi()) && final(self).bytes() == written(
                    old(self).bytes(),
                    old(self).metas()[idxs@[j] as int],
                    old(self).nth_spec(idxs@[j] as int) + (1),
                ),
    {
        let mut i: usize = idxs.len();
        while i > 0
            invariant
                i <= idxs.len(),
                self.wf(),
                self.metas() == old(self).metas(),
                self.bytes() == old(self).bytes(),
                forall|k: int| 0 <= k < idxs.len() ==> #[trigger] idxs@[k] < old(self).metas().len(),
                forall|k: int|
                    i <= k < idxs.len() ==> old(self).nth_spec(#[trigger] idxs@[k] as int) == old(
                        self,
                    ).metas()[idxs@[k] as int].hi(),
            decreases i,
        {
            let idx = idxs[i - 1];
            let ghost m = old(self).metas()[idx as int];
            proof {
                assert(idxs@[i - 1] == idx);
                assert(self.metas()[idx as int].fits(self.bytes().len()));
                lemma_width_facts(self.metas()[idx as int]);
                lemma_value_in_bounds(self.bytes(), self.metas()[idx as int]);
            }
            if self.add_nth_(idx, 1) != 0 {
                proof {
                    let j = i - 1;
                    assert(old(self).nth_spec(idxs@[j] as int) < m.hi());
                }
                return true;
            }
            i = i - 1;
            proof {
                assert(old(self).nth_spec(idxs@[i as int] as int) == m.hi());
                lemma_written_self(old(self).bytes(), m);
            }
        }
        proof {
            assert forall|k: int| 0 <= k < idxs.len() implies !(old(self).nth_spec(#[trigger] idxs@[k] as int) < old(
                self,
            ).metas()[idxs@[k] as int].hi()) by {}
        }
        false
    }

    /// Subtracts one from the last segment of `idxs` that is above its lower
    /// bound, trying from the end; false, with the bytes unchanged, when none is.
    pub fn dec_lsb(&mut self, idxs: &Vec<usize>) -> (r: bool)
        requires
            old(self).wf(),
            forall|k: int| 0 <= k < idxs.len() ==> #[trigger] idxs@[k] < old(self).metas().len(),
        ensures
            final(self).wf(),
            final(self).metas() == old(self).metas(),
            r == exists|k: int|
                0 <= k < idxs.len() && old(self).nth_spec(#[trigger] idxs@[k] as int) > old(
                    self,
                ).metas()[idxs@[k] as int].lo(),
            !r ==> final(self).bytes() == old(self).bytes(),
            r ==> exists|j: int|
                0 <= j < idxs.len() && old(self).nth_spec(#[trigger] idxs@[j] as int) > old(
                    self,
                ).metas()[idxs@[j] as int].lo() && (forall|k: int|
                    j < k < idxs.len() ==> old(self).nth_spec(#[trigger] idxs@[k] as int) == old(
                        self,
                    ).metas()[idxs@[k] as int].lo()) && final(self).bytes() == written(
                    old(self).bytes(),
                    old(self).metas()[idxs@[j] as int],
                    old(self).nth_spec(idxs@[j] as int) + (-1),
                ),
    {
        let mut i: usize = idxs.len();
        while i > 0
            invariant
                i <= idxs.len(),
                self.wf(),
                self.metas() == old(self).metas(),
                self.bytes() == old(self).bytes(),
                forall|k: int| 0 <= k < idxs.len() ==> #[trigger] idxs@[k] < old(self).metas().len(),
                forall|k: int|
                    i <= k < idxs.len() ==> old(self).nth_spec(#[trigger] idxs@[k] as int) == old(
                        self,
                    ).metas()[idxs@[k] as int].lo(),
            decreases i,
        {
            let idx = idxs[i - 1];
            let ghost m = old(self).metas()[idx as int];
            proof {
                assert(idxs@[i - 1] == idx);
                assert(self.metas()[idx as int].fits(self.bytes().len()));
                lemma_width_facts(self.metas()[idx as int]);
                lemma_value_in_bounds(self.bytes(), self.metas()[idx as int]);
            }
            if self.add_nth_(idx, -1) != 0 {
                proof {
                    let j = i - 1;
                    assert(old(self).nth_spec(idxs@[j] as int) > m.lo());
                }
                return true;
            }
            i = i - 1;
            proof {
                assert(old(self).nth_spec(idxs@[i as int] as int) == m.lo());
                lemma_written_self(old(self).bytes(), m);
            }
        }
        proof {
            assert forall|k: int| 0 <= k < idxs.len() implies !(old(self).nth_spec(#[trigger] idxs@[k] as int) > old(
                self,
            ).metas()[idxs@[k] as int].lo()) by {}
        }
        false
    }

    /// Splits segment `idx` into one-byte segments read neither way; the
    /// bytes and the other segments stay as they are.
    pub fn split_meta(&mut self, idx: usize)
        requires
            old(self).wf(),
            idx < old(self).metas().len(),
        ensures
            final(self).wf(),
            final(self).bytes() == old(self).bytes(),
            final(self).metas().len() == old(self).metas().len() + old(self).metas()[idx as int].len() - 1,
            forall|i: int| 0 <= i < idx ==> #[trigger] final(self).metas()[i] == old(self).metas()[i],
            forall|k: int|
                0 <= k < old(self).metas()[idx as int].len() ==> byte_meta(
                    #[trigger] final(self).metas()[idx + k],
                    old(self).metas()[idx as int].off() + k,
                    Endian::Split,
                ) && final(self).metas()[idx + k].signed() == old(self).metas()[idx as int].signed()
                    && final(self).metas()[idx + k].info() == old(self).metas()[idx as int].info(),
            forall|i: int|
                idx < i < old(self).metas().len() ==> #[trigger] final(self).metas()[i + old(
                    self,
                ).metas()[idx as int].len() - 1] == old(self).metas()[i],
    {
        let ghost om = self.metas();
        let ghost len = self.bytes().len();
        let target = self.meta[idx];
        assert(om[idx as int].fits(len));
        let blen = self.value.len();
        let mut metas: Vec<InputMeta> = Vec::new();
        let mut i: usize = 0;
        while i < self.meta.len()
            invariant
                i <= self.meta.len(),
                om == self.metas(),
                idx < om.len(),
                len == self.bytes().len(),
                target.off() == om[idx as int].off(),
                target.len() == om[idx as int].len(),
                target.signed() == om[idx as int].signed(),
                target.info() == om[idx as int].info(),
                target.len() <= 8,
                target.off() + target.len() <= len,
                target.info().wf(),
                len == blen,
                metas_fit(om, len),
                metas_ordered(om),
                i <= idx ==> metas@.len() == i,
                i > idx ==> metas@.len() == i + target.len() - 1,
                forall|j: int| 0 <= j < i && j < idx ==> #[trigger] metas@[j] == om[j],
                i > idx ==> forall|k: int|
                    0 <= k < target.len() ==> byte_meta(
                        #[trigger] metas@[idx + k],
                        target.off() + k,
                        Endian::Split,
                    ) && metas@[idx + k].signed() == target.signed() && metas@[idx + k].info()
                        == target.info(),
                forall|j: int| idx < j < i ==> #[trigger] metas@[j + target.len() - 1] == om[j],
            decreases self.meta.len() - i,
        {
            if i == idx {
                let mut k: usize = 0;
                while k < target.size
                    invariant
                        k <= target.len() <= 8,
                        metas@.len() == idx + k,
                        target.off() + target.len() <= len,
                        len == blen,
                        target.info().wf(),
                        forall|j: int| 0 <= j < idx ==> #[trigger] metas@[j] == om[j],
                        forall|kk: int|
                            0 <= kk < k ==> byte_meta(
                                #[trigger] metas@[idx + kk],
                                target.off() + kk,
                                Endian::Split,
                            ) && metas@[idx + kk].signed() == target.signed() && metas@[idx + kk].info()
                                == target.info(),
                    decreases target.len() - k,
                {
                    let m = InputMeta {
                        sign_info: target.sign_info,
                        sign: target.sign,
                        endian: Endian::Split,
                        offset: target.offset + k,
                        size: 1,
                    };
                    metas.push(m);
                    k = k + 1;
                }
            } else {
                let m = self.meta[i];
                metas.push(m);
            }
            i = i + 1;
        }
        let ghost n = target.len() as int;
        let ghost nm = metas@;
        proof {
            assert forall|p: int| 0 <= p < nm.len() implies #[trigger] nm[p].fits(len) by {
                if p < idx {
                    assert(nm[p] == om[p]);
                    assert(om[p].fits(len));
                } else if p < idx + n {
                    assert(byte_meta(nm[idx + (p - idx)], target.off() + (p - idx), Endian::Split));
                } else {
                    let j = p - n + 1;
                    assert(nm[j + n - 1] == om[j]);
                    assert(om[j].fits(len));
                }
            }
            assert forall|p: int, q: int|
                0 <= p < q < nm.len() implies #[trigger] nm[p].off() + nm[p].len() <= #[trigger] nm[q].off() by {
                let pj = if p < idx { p } else if p < idx + n { idx as int } else { p - n + 1 };
                let qj = if q < idx { q } else if q < idx + n { idx as int } else { q - n + 1 };
                if p < idx {
                    assert(nm[p] == om[p]);
                } else if p < idx + n {
                    assert(byte_meta(nm[idx + (p - idx)], target.off() + (p - idx), Endian::Split));
                } else {
                    assert(nm[(p - n + 1) + n - 1] == om[p - n + 1]);
                }
                if q < idx {
                    assert(nm[q] == om[q]);
                } else if q < idx + n {
                    assert(byte_meta(nm[idx + (q - idx)], target.off() + (q - idx), Endian::Split));
                } else {
                    assert(nm[(q - n + 1) + n - 1] == om[q - n + 1]);
                }
                if pj < qj {
                    assert(om[pj].off() + om[pj].len() <= om[qj].off());
                }
            }
        }
        self.meta = metas;
    }
}

/// `input` grown with zeros to the end of the last segment.
pub open spec fn extended(input: Seq<u8>, offs: Seq<TagSeg>) -> Seq<u8> {
    if offs.len() > 0 && offs.last().end > input.len() {
        input + Seq::new((offs.last().end - input.len()) as nat, |k: int| 0u8)
    } else {
        input
    }
}

impl MutInput {
    /// Writes the buffer back over the tainted ranges of `input`, first
    /// growing `input` with zeros to the end of the last range.
    pub fn write_to_input(&self, offsets: &Vec<TagSeg>, input: &mut Vec<u8>)
        requires
            crate::rw::segs_fit(offsets@, extended(old(input)@, offsets@).len()),
            crate::rw::total_width(offsets@) <= self.bytes().len(),
        ensures
            final(input)@ == crate::rw::scatter(offsets@, self.bytes(), extended(old(input)@, offsets@)),
    {
        if offsets.len() > 0 {
            let ext_len = offsets[offsets.len() - 1].end as usize;
            let orig_len = input.len();
            if ext_len > orig_len {
                let ghost before = input@;
                let mut k: usize = orig_len;
                while k < ext_len
                    invariant
                        orig_len <= k <= ext_len,
                        input@ =~= before + Seq::new((k - orig_len) as nat, |j: int| 0u8),
                    decreases ext_len - k,
                {
                    input.push(0u8);
                    k = k + 1;
                    assert(input@ =~= before + Seq::new((k - orig_len) as nat, |j: int| 0u8));
                }
            }
        }
        crate::rw::set_bytes_by_offsets(offsets, &self.value, input);
    }
}

/// A segment of `n` bytes filled with `fill`, then its most significant
/// byte set to `head` (when given), then `tail_delta` added, wrapping, to
/// its least significant byte. Little-endian and split segments keep the
/// most significant byte last, big-endian ones first.
pub open spec fn filled_seg(n: nat, fill: u8, head: Option<u8>, tail_delta: i8, be: bool) -> Seq<u8> {
    let hp: int = if be { 0 } else { n - 1 };
    let tp: int = if be { n - 1 } else { 0 };
    let s0 = Seq::new(n, |k: int| fill);
    let s1 = if head.is_some() { s0.update(hp, head.unwrap()) } else { s0 };
    s1.update(tp, ((s1[tp] as int + tail_delta as int) % 256) as u8)
}

/// The evidence for a signed reading from the objective at the four inputs
/// around the unsigned wrap (`UMAX - 1`, `UMAX`, `0`, `1`): a jump across
/// the wrap that is large next to the steps on either side means the
/// operand is unsigned. `None` is an unreachable objective.
pub open spec fn dyn_n_spec(f_sub_one: Option<i128>, f_sub: Option<i128>, f_add: Option<i128>, f_add_one: Option<i128>) -> Sign {
    if f_sub_one.is_none() || f_sub.is_none() || f_add.is_none() || f_add_one.is_none() {
        Sign::Unknown
    } else if (crate::output::abs_int(f_sub.unwrap() - f_sub_one.unwrap()) + crate::output::abs_int(
        f_add.unwrap() - f_add_one.unwrap(),
    )) * 10 < crate::output::abs_int(f_sub.unwrap() - f_add.unwrap()) {
        Sign::Unsigned
    } else {
        Sign::Signed
    }
}

/// The same around the signed wrap (`MIN + 1`, `MIN`, `MAX`, `MAX - 1`): a
/// large jump there means the operand is signed.
pub open spec fn dyn_s_spec(f_add_one: Option<i128>, f_add: Option<i128>, f_sub: Option<i128>, f_sub_one: Option<i128>) -> Sign {
    if f_add_one.is_none() || f_add.is_none() || f_sub.is_none() || f_sub_one.is_none() {
        Sign::Unknown
    } else if (crate::output::abs_int(f_add_one.unwrap() - f_add.unwrap()) + crate::output::abs_int(
        f_sub_one.unwrap() - f_sub.unwrap(),
    )) * 10 < crate::output::abs_int(f_add.unwrap() - f_sub.unwrap()) {
        Sign::Signed
    } else {
        Sign::Unsigned
    }
}

fn abs_diff(a: i128, b: i128) -> (r: i128)
    requires
        -crate::gradient::F_BOUND <= a <= crate::gradient::F_BOUND,
        -crate::gradient::F_BOUND <= b <= crate::gradient::F_BOUND,
    ensures
        r == crate::output::abs_int(a - b),
{
    if a >= b {
        a - b
    } else {
        b - a
    }
}

pub open spec fn obj_ok(f: Option<i128>) -> bool {
    crate::gradient::f_ok(f)
}

/// Sign evidence across the unsigned wrap.
pub fn infer_dyn_n_sign(f_n_sub_one: Option<i128>, f_n_sub: Option<i128>, f_n_add: Option<i128>, f_n_add_one: Option<i128>) -> (r: Sign)
    requires
        obj_ok(f_n_sub_one),
        obj_ok(f_n_sub),
        obj_ok(f_n_add),
        obj_ok(f_n_add_one),
    ensures
        r == dyn_n_spec(f_n_sub_one, f_n_sub, f_n_add, f_n_add_one),
{
    match (f_n_sub_one, f_n_sub, f_n_add, f_n_add_one) {
        (Some(a), Some(b), Some(c), Some(d)) => {
            if (abs_diff(b, a) + abs_diff(c, d)) * 10 < abs_diff(b, c) {
                Sign::Unsigned
            } else {
                Sign::Signed
            }
        },
        _ => Sign::Unknown,
    }
}

/// Sign evidence across the signed wrap.
pub fn infer_dyn_s_sign(f_s_add_one: Option<i128>, f_s_add: Option<i128>, f_s_sub: Option<i128>, f_s_sub_one: Option<i128>) -> (r: Sign)
    requires
        obj_ok(f_s_add_one),
        obj_ok(f_s_add),
        obj_ok(f_s_sub),
        obj_ok(f_s_sub_one),
    ensures
        r == dyn_s_spec(f_s_add_one, f_s_add, f_s_sub, f_s_sub_one),
{
    match (f_s_add_one, f_s_add, f_s_sub, f_s_sub_one) {
        (Some(a), Some(b), Some(c), Some(d)) => {
            if (abs_diff(a, b) + abs_diff(d, c)) * 10 < abs_diff(b, c) {
                Sign::Signed
            } else {
                Sign::Unsigned
            }
        },
        _ => Sign::Unknown,
    }
}

impl MutInput {
    /// Fills segment `idx` for a probe at a wrap of its type: every byte
    /// `fill`, the most significant byte then `head` when given, and
    /// `tail_delta` added to the least significant byte.
    pub fn set_nth_fill(&mut self, idx: usize, fill: u8, head: Option<u8>, tail_delta: i8)
        requires
            old(self).wf(),
            idx < old(self).metas().len(),
        ensures
            final(self).wf(),
            final(self).metas() == old(self).metas(),
            final(self).bytes() == write_seg(
                old(self).bytes(),
                old(self).metas()[idx as int].off() as int,
                filled_seg(
                    old(self).metas()[idx as int].len(),
                    fill,
                    head,
                    tail_delta,
                    old(self).metas()[idx as int].is_be_spec(),
                ),
            ),
    {
        let ghost m = self.metas()[idx as int];
        assert(m.fits(self.bytes().len()));
        let off = self.meta[idx].offset;
        let n = self.meta[idx].size;
        let be = self.meta[idx].is_be();
        let ghost before = self.value@;
        let mut k: usize = 0;
        while k < n
            invariant
                k <= n,
                n == m.len(),
                off == m.off(),
                off + n <= self.value.len(),
                self.value.len() == before.len(),
                self.meta@ == old(self).meta@,
                before == old(self).value@,
                self.value@ =~= write_seg(before, off as int, Seq::new(k as nat, |j: int| fill)),
            decreases n - k,
        {
            self.value.set(off + k, fill);
            k = k + 1;
            assert(self.value@ =~= write_seg(before, off as int, Seq::new(k as nat, |j: int| fill)));
        }
        let hp = if be {
            off
        } else {
            off + n - 1
        };
        let tp = if be {
            off + n - 1
        } else {
            off
        };
        match head {
            Some(h) => self.value.set(hp, h),
            None => {},
        }
        let t = self.value[tp];
        let nt: u8 = ((t as i16 + tail_delta as i16 + 256) % 256) as u8;
        self.value.set(tp, nt);
        proof {
            let hpi: int = if be { 0 } else { n - 1 };
            let tpi: int = if be { n - 1 } else { 0 };
            let s0 = Seq::new(n as nat, |j: int| fill);
            let s1 = if head.is_some() { s0.update(hpi, head.unwrap()) } else { s0 };
            assert(t == s1[tpi]);
            assert((t as int + tail_delta as int + 256) % 256 == (t as int + tail_delta as int) % 256) by {
                vstd::arithmetic::div_mod::lemma_mod_add_multiples_vanish(t as int + tail_delta as int, 256);
            }
            assert(self.value@ =~= write_seg(
                before,
                off as int,
                filled_seg(n as nat, fill, head, tail_delta, be),
            ));
        }
    }

    /// Records the dynamic sign evidence of segment `idx`.
    pub fn update_dyn_sign_info(&mut self, idx: usize, dyn_n: Sign, dyn_s: Sign)
        requires
            old(self).wf(),
            idx < old(self).metas().len(),
        ensures
            final(self).wf(),
            final(self).bytes() == old(self).bytes(),
            final(self).metas().len() == old(self).metas().len(),
            forall|i: int| 0 <= i < old(self).metas().len() && i != idx ==> #[trigger] final(self).metas()[i] == old(self).metas()[i],
            final(self).metas()[idx as int].info().dyn_n_sign == dyn_n,
            final(self).metas()[idx as int].info().dyn_s_sign == dyn_s,
            final(self).metas()[idx as int].info().static_sign == old(self).metas()[idx as int].info().static_sign,
            final(self).metas()[idx as int].off() == old(self).metas()[idx as int].off(),
            final(self).metas()[idx as int].len() == old(self).metas()[idx as int].len(),
            final(self).metas()[idx as int].order() == old(self).metas()[idx as int].order(),
            final(self).metas()[idx as int].signed() == old(self).metas()[idx as int].signed(),
    {
        let ghost len = self.bytes().len();
        assert(self.metas()[idx as int].fits(len));
        let mut m = self.meta[idx];
        m.sign_info.update_dyn_sign(dyn_n, dyn_s);
        self.meta.set(idx, m);
        assert forall|i: int| 0 <= i < self.metas().len() implies #[trigger] self.metas()[i].fits(len) by {
            if i != idx {
                assert(old(self).metas()[i].fits(len));
            }
        }
        assert forall|i: int, j: int|
            0 <= i < j < self.metas().len() implies #[trigger] self.metas()[i].off() + self.metas()[i].len()
            <= #[trigger] self.metas()[j].off() by {
            assert(old(self).metas()[i].off() + old(self).metas()[i].len() <= old(self).metas()[j].off());
        }
    }

    /// Commits a sign to every segment: the consensus of its evidence, or,
    /// with `random_sign`, one drawn with the blended probability.
    pub fn assign_sign(&mut self, random_sign: bool)
        requires
            old(self).wf(),
        ensures
            final(self).wf(),
            final(self).bytes() == old(self).bytes(),
            final(self).metas().len() == old(self).metas().len(),
            forall|i: int|
                0 <= i < old(self).metas().len() ==> {
                    let (o, n) = (old(self).metas()[i], #[trigger] final(self).metas()[i]);
                    &&& n.off() == o.off() && n.len() == o.len() && n.order() == o.order() && n.info() == o.info()
                    &&& !random_sign ==> n.signed() == (2 * (o.info().prob_num as int) > o.info().prob_den as int)
                },
    {
        let ghost len = self.bytes().len();
        let mut i: usize = 0;
        while i < self.meta.len()
            invariant
                i <= self.meta.len(),
                self.meta.len() == old(self).meta.len(),
                self.value@ == old(self).value@,
                len == self.bytes().len(),
                metas_fit(old(self).metas(), len),
                metas_ordered(old(self).metas()),
                forall|k: int| i <= k < self.metas().len() ==> #[trigger] self.metas()[k] == old(self).metas()[k],
                forall|k: int|
                    0 <= k < i ==> {
                        let (o, n) = (old(self).metas()[k], #[trigger] self.metas()[k]);
                        &&& n.off() == o.off() && n.len() == o.len() && n.order() == o.order() && n.info() == o.info()
                        &&& !random_sign ==> n.signed() == (2 * (o.info().prob_num as int) > o.info().prob_den as int)
                    },
            decreases self.meta.len() - i,
        {
            assert(self.metas()[i as int] == old(self).metas()[i as int]);
            let mut m = self.meta[i];
            assert(m == old(self).metas()[i as int]);
            assert(old(self).metas()[i as int].fits(len));
            assert(m.sign_info.wf());
            let ghost before = self.meta@;
            let sign = if random_sign {
                proof {
                    crate::sign::lemma_sign_prob_bounds(m.sign_info.static_sign, m.sign_info.dyn_n_sign, m.sign_info.dyn_s_sign);
                }
                let draw = crate::rng::random_below(m.sign_info.prob_den);
                m.sign_info.get_random_sign(draw)
            } else {
                m.sign_info.get_concensus_sign()
            };
            m.sign = sign;
            self.meta.set(i, m);
            assert(self.meta@ == before.update(i as int, m));
            assert forall|k: int| i < k < self.metas().len() implies #[trigger] self.metas()[k] == old(self).metas()[k] by {
                assert(before[k] == old(self).metas()[k]);
            }
            i = i + 1;
        }
        assert forall|k: int| 0 <= k < self.metas().len() implies #[trigger] self.metas()[k].fits(len) by {
            assert(old(self).metas()[k].fits(len));
        }
        assert forall|a: int, b: int|
            0 <= a < b < self.metas().len() implies #[trigger] self.metas()[a].off() + self.metas()[a].len()
            <= #[trigger] self.metas()[b].off() by {
            assert(old(self).metas()[a].off() + old(self).metas()[a].len() <= old(self).metas()[b].off());
        }
    }
}

impl MutInput {
    /// A copy of the buffer with only segment `idx`.
    pub fn clone_nth(&self, idx: usize) -> (r: Self)
        requires
            self.wf(),
            idx < self.metas().len(),
        ensures
            r.wf(),
            r.bytes() == self.bytes(),
            r.metas() == seq![self.metas()[idx as int]],
    {
        let m = self.meta[idx];
        assert(self.metas()[idx as int].fits(self.bytes().len()));
        let mut meta: Vec<InputMeta> = Vec::new();
        meta.push(m);
        let r = MutInput { value: self.value.clone(), meta };
        assert(r.value@ =~= self.value@);
        assert(r.metas() =~= seq![self.metas()[idx as int]]);
        r
    }

    /// The bytes of segment `idx`.
    pub fn get_slice(&self, idx: usize) -> (r: Vec<u8>)
        requires
            self.wf(),
            idx < self.metas().len(),
        ensures
            r@ == seg_of(self.bytes(), self.metas()[idx as int]),
    {
        let m = self.meta[idx];
        assert(self.metas()[idx as int].fits(self.bytes().len()));
        let mut v: Vec<u8> = Vec::new();
        let mut k: usize = 0;
        while k < m.size
            invariant
                k <= m.size,
                m.offset + m.size <= self.value.len(),
                v@ =~= self.value@.subrange(m.offset as int, m.offset + k),
            decreases m.size - k,
        {
            v.push(self.value[m.offset + k]);
            k = k + 1;
        }
        v
    }

    /// Writes `src` over the bytes of segment `idx`.
    pub fn write_slice(&mut self, idx: usize, src: &Vec<u8>)
        requires
            old(self).wf(),
            idx < old(self).metas().len(),
            src.len() == old(self).metas()[idx as int].len(),
        ensures
            final(self).wf(),
            final(self).metas() == old(self).metas(),
            final(self).bytes() == write_seg(old(self).bytes(), old(self).metas()[idx as int].off() as int, src@),
    {
        let m = self.meta[idx];
        assert(self.metas()[idx as int].fits(self.bytes().len()));
        let ghost before = self.value@;
        let mut k: usize = 0;
        while k < m.size
            invariant
                k <= m.size == src.len(),
                m.offset + m.size <= self.value.len(),
                self.value.len() == before.len(),
                before == old(self).value@,
                self.meta@ == old(self).meta@,
                self.value@ =~= write_seg(before, m.offset as int, src@.subrange(0, k as int)),
            decreases m.size - k,
        {
            self.value.set(m.offset + k, src[k]);
            k = k + 1;
            assert(self.value@ =~= write_seg(before, m.offset as int, src@.subrange(0, k as int)));
        }
        assert(src@.subrange(0, src.len() as int) =~= src@);
    }

    /// Replaces the buffer by random bytes (one time in `weight`) or by a
    /// stack of random segment mutations; the length and the segments stay.
    pub fn randomize_all_with_weight(&mut self, weight: u32)
        requires
            old(self).wf(),
            weight >= 1,
            old(self).bytes().len() > 0,
            old(self).metas().len() > 0,
            old(self).bytes().len() <= u32::MAX,
            old(self).metas().len() <= u32::MAX,
        ensures
            final(self).wf(),
            final(self).metas() == old(self).metas(),
            final(self).bytes().len() == old(self).bytes().len(),
    {
        if crate::rng::random_ratio(1, weight) {
            self.randomize_all_uniform();
        } else {
            self.randomize_all_mut_based();
        }
    }

    /// Replaces every byte by a random one.
    pub fn randomize_all_uniform(&mut self)
        requires
            old(self).wf(),
        ensures
            final(self).wf(),
            final(self).metas() == old(self).metas(),
            final(self).bytes().len() == old(self).bytes().len(),
    {
        crate::rng::fill_random(&mut self.value);
    }

    /// Stacks random mutations: bit flips, small additions and
    /// subtractions of segments, interesting values, random bytes. Short
    /// buffers get fewer of them: at most 16 up to 4 bytes, 64 up to 20,
    /// 256 beyond.
    pub fn randomize_all_mut_based(&mut self)
        requires
            old(self).wf(),
            old(self).bytes().len() > 0,
            old(self).metas().len() > 0,
            old(self).bytes().len() <= u32::MAX,
            old(self).metas().len() <= u32::MAX,
        ensures
            final(self).wf(),
            final(self).metas() == old(self).metas(),
            final(self).bytes().len() == old(self).bytes().len(),
            exists|ops: Seq<MutOp>|
                1 <= ops.len() <= max_stack(old(self).bytes().len()) && #[trigger] mut_ops_ok(
                    old(self).metas(),
                    old(self).bytes().len(),
                    ops,
                ) && final(self).bytes() == apply_mut_ops(old(self).bytes(), old(self).metas(), ops),
    {
        let entry_len = self.meta.len() as u32;
        let byte_len = self.value.len() as u32;
        let use_stacking: u32 = if byte_len <= 4 {
            1 + crate::rng::random_below(16)
        } else if byte_len <= 20 {
            1 + crate::rng::random_below(64)
        } else {
            1 + crate::rng::random_below(256)
        };
        let ghost mut ops: Seq<MutOp> = Seq::empty();
        let mut i: u32 = 0;
        while i < use_stacking
            invariant
                self.wf(),
                self.metas() == old(self).metas(),
                self.bytes().len() == old(self).bytes().len(),
                entry_len == self.metas().len(),
                byte_len == self.bytes().len(),
                entry_len > 0,
                byte_len > 0,
                use_stacking <= max_stack(old(self).bytes().len()),
                i <= use_stacking,
                ops.len() == i,
                mut_ops_ok(old(self).metas(), old(self).bytes().len(), ops),
                self.bytes() == apply_mut_ops(old(self).bytes(), old(self).metas(), ops),
            decreases use_stacking - i,
        {
            let choice = crate::rng::random_below(6);
            let op = if choice <= 1 {
                let byte_idx = crate::rng::random_below(byte_len);
                let bit_idx = crate::rng::random_below(8);
                MutOp::FlipBit { byte_idx: byte_idx as usize, bit_idx: bit_idx as u8 }
            } else if choice <= 3 {
                let entry_idx = crate::rng::random_below(entry_len);
                let v = 1 + crate::rng::random_below(MUTATE_ARITH_MAX - 1);
                MutOp::AddSub { entry: entry_idx as usize, delta: v as u64, direction: choice == 2 }
            } else if choice == 4 {
                let entry_idx = crate::rng::random_below(entry_len);
                let n = self.get_entry_len(entry_idx as usize);
                let vals = crate::afl::get_interesting_bytes(n);
                let wh = crate::rng::random_below(vals.len() as u32);
                proof {
                    assert(vals@.contains(vals@[wh as int]));
                }
                MutOp::SetInteresting { entry: entry_idx as usize, val: vals[wh as usize] }
            } else {
                let byte_idx = crate::rng::random_below(byte_len);
                MutOp::SetByte { byte_idx: byte_idx as usize, val: crate::rng::random_u8() }
            };
            self.apply_mut_op(op);
            proof {
                let ops1 = ops.push(op);
                assert(ops1.drop_last() =~= ops);
                assert(ops1.last() == op);
                ops = ops1;
            }
            i = i + 1;
        }
    }

    /// Applies one segment mutation.
    pub fn apply_mut_op(&mut self, op: MutOp)
        requires
            old(self).wf(),
            mut_op_ok(old(self).metas(), old(self).bytes().len(), op),
        ensures
            final(self).wf(),
            final(self).metas() == old(self).metas(),
            final(self).bytes() == mut_op_result(old(self).bytes(), old(self).metas(), op),
            final(self).bytes().len() == old(self).bytes().len(),
    {
        match op {
            MutOp::FlipBit { byte_idx, bit_idx } => {
                let b = self.value[byte_idx] ^ (128u8 >> bit_idx);
                self.value.set(byte_idx, b);
            },
            MutOp::AddSub { entry, delta, direction } => {
                assert(self.metas()[entry as int].fits(self.bytes().len()));
                self.update(entry, direction, delta);
                proof {
                    let m = old(self).metas()[entry as int];
                    crate::afl::lemma_updated_len(seg_of(old(self).bytes(), m), false, direction, delta);
                }
            },
            MutOp::SetInteresting { entry, val } => {
                assert(self.metas()[entry as int].fits(self.bytes().len()));
                self.set(entry, val);
                proof {
                    lemma_le_bytes_len(val as nat, old(self).metas()[entry as int].len());
                }
            },
            MutOp::SetByte { byte_idx, val } => {
                self.value.set(byte_idx, val);
            },
        }
    }
}

/// One mutation of `randomize_all_mut_based`.
#[derive(Clone, Copy, Debug, PartialEq, Eq)]
pub enum MutOp {
    FlipBit { byte_idx: usize, bit_idx: u8 },
    /// Adds (`direction`) or subtracts a small `delta` to a segment's
    /// stored bits, wrapping.
    AddSub { entry: usize, delta: u64, direction: bool },
    /// Stores an interesting value of the segment's width.
    SetInteresting { entry: usize, val: u64 },
    SetByte { byte_idx: usize, val: u8 },
}

/// Largest number of stacked mutations for a buffer of `len` bytes.
pub open spec fn max_stack(len: nat) -> nat {
    if len <= 4 {
        16
    } else if len <= 20 {
        64
    } else {
        256
    }
}

pub open spec fn mut_op_ok(metas: Seq<InputMeta>, len: nat, op: MutOp) -> bool {
    match op {
        MutOp::FlipBit { byte_idx, bit_idx } => byte_idx < len && bit_idx < 8,
        MutOp::AddSub { entry, delta, .. } => entry < metas.len() && 1 <= delta < MUTATE_ARITH_MAX,
        MutOp::SetInteresting { entry, val } => entry < metas.len() && crate::afl::interesting_spec(
            metas[entry as int].len() as usize,
        ).contains(val),
        MutOp::SetByte { byte_idx, .. } => byte_idx < len,
    }
}

pub open spec fn mut_op_result(bytes: Seq<u8>, metas: Seq<InputMeta>, op: MutOp) -> Seq<u8> {
    match op {
        MutOp::FlipBit { byte_idx, bit_idx } => bytes.update(
            byte_idx as int,
            bytes[byte_idx as int] ^ ((128u8 >> bit_idx) as u8),
        ),
        MutOp::AddSub { entry, delta, direction } => write_seg(
            bytes,
            metas[entry as int].off() as int,
            crate::rw::updated_seg(seg_of(bytes, metas[entry as int]), false, direction, delta),
        ),
        MutOp::SetInteresting { entry, val } => write_seg(
            bytes,
            metas[entry as int].off() as int,
            le_bytes(val as nat, metas[entry as int].len()),
        ),
        MutOp::SetByte { byte_idx, val } => bytes.update(byte_idx as int, val),
    }
}

pub open spec fn apply_mut_ops(bytes: Seq<u8>, metas: Seq<InputMeta>, ops: Seq<MutOp>) -> Seq<u8>
    decreases ops.len(),
{
    if ops.len() == 0 {
        bytes
    } else {
        mut_op_result(apply_mut_ops(bytes, metas, ops.drop_last()), metas, ops.last())
    }
}

/// Every mutation fits the segments and a buffer of `len` bytes.
pub open spec fn mut_ops_ok(metas: Seq<InputMeta>, len: nat, ops: Seq<MutOp>) -> bool {
    forall|k: int| 0 <= k < ops.len() ==> mut_op_ok(metas, len, #[trigger] ops[k])
}

impl MutInput {
    /// Reads segment `idx` as big-endian from now on.
    pub fn nth_to_be(&mut self, idx: usize)
        requires
            old(self).wf(),
            idx < old(self).metas().len(),
        ensures
            final(self).wf(),
            final(self).bytes() == old(self).bytes(),
            final(self).metas().len() == old(self).metas().len(),
            forall|i: int| 0 <= i < old(self).metas().len() && i != idx ==> #[trigger] final(self).metas()[i] == old(self).metas()[i],
            final(self).metas()[idx as int].order() == Endian::BigEndian,
            final(self).metas()[idx as int].off() == old(self).metas()[idx as int].off(),
            final(self).metas()[idx as int].len() == old(self).metas()[idx as int].len(),
            final(self).metas()[idx as int].signed() == old(self).metas()[idx as int].signed(),
            final(self).metas()[idx as int].info() == old(self).metas()[idx as int].info(),
    {
        let ghost len = self.bytes().len();
        assert(self.metas()[idx as int].fits(len));
        let mut m = self.meta[idx];
        m.to_be();
        self.meta.set(idx, m);
        assert forall|i: int| 0 <= i < self.metas().len() implies #[trigger] self.metas()[i].fits(len) by {
            if i != idx {
                assert(old(self).metas()[i].fits(len));
            }
        }
        assert forall|i: int, j: int|
            0 <= i < j < self.metas().len() implies #[trigger] self.metas()[i].off() + self.metas()[i].len()
            <= #[trigger] self.metas()[j].off() by {
            assert(old(self).metas()[i].off() + old(self).metas()[i].len() <= old(self).metas()[j].off());
        }
    }
}

impl MutInput {
    /// Sets the next interesting value for a restart: segment
    /// `sample.0` takes value number `sample.1` of the interesting values
    /// of its width, and `sample` moves on (to the next segment after as
    /// many values as the segment has bytes). False, with nothing changed,
    /// once every segment is done or on visits after the second.
    pub fn get_interesting_point(&mut self, sample: &mut (usize, usize), more_than_twice: bool) -> (r: bool)
        requires
            old(self).wf(),
        ensures
            final(self).wf(),
            final(self).metas() == old(self).metas(),
            ({
                let (s0, s1) = *old(sample);
                let ok = !more_than_twice && s0 < old(self).metas().len() && s1 < old(self).metas()[s0 as int].len();
                &&& r == ok
                &&& !ok ==> final(self).bytes() == old(self).bytes() && *final(sample) == *old(sample)
                &&& ok ==> {
                    let m = old(self).metas()[s0 as int];
                    &&& final(self).bytes() == write_seg(
                        old(self).bytes(),
                        m.off() as int,
                        le_bytes(crate::afl::interesting_spec(m.len() as usize)[s1 as int] as nat, m.len()),
                    )
                    &&& *final(sample) == if s1 + 1 == m.len() {
                        ((s0 + 1) as usize, 0usize)
                    } else {
                        (s0, (s1 + 1) as usize)
                    }
                }
            }),
    {
        if more_than_twice || sample.0 >= self.meta.len() {
            return false;
        }
        let n = self.get_entry_len(sample.0);
        if sample.1 >= n {
            return false;
        }
        assert(self.metas()[sample.0 as int].fits(self.bytes().len()));
        let vals = crate::afl::get_interesting_bytes(n);
        self.set(sample.0, vals[sample.1]);
        sample.1 = sample.1 + 1;
        if sample.1 == n {
            sample.1 = 0;
            sample.0 = sample.0 + 1;
        }
        true
    }
}
} // verus!
