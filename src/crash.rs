//! Deduplication of crashes by the stack frames that the sanitizer reports.
use vstd::prelude::*;
use vstd::string::StringSliceAdditionalSpecFns;

verus! {

/// The SHA-256 digest of a byte string.
pub uninterp spec fn sha256_of(data: Seq<u8>) -> Seq<u8>;

/// Relies on `sha2::Sha256::digest` (through `sha2::Digest`): the SHA-256
/// digest of `data`, 32 bytes, a function of the bytes alone.
#[verifier::external_body]
fn sha256(data: &Vec<u8>) -> (r: Vec<u8>)
    ensures
        r@ == sha256_of(data@),
        r@.len() == 32,
{
    <sha2::Sha256 as sha2::Digest>::digest(data.as_slice()).to_vec()
}

pub open spec fn is_ws(b: u8) -> bool {
    b == 32 || (9 <= b && b <= 13)
}

/// The whitespace-separated words of a line, as byte strings.
pub open spec fn words(l: Seq<u8>) -> Seq<Seq<u8>>
    decreases l.len(),
{
    if l.len() == 0 {
        Seq::empty()
    } else {
        let ws = words(l.drop_last());
        let c = l.last();
        if is_ws(c) {
            ws
        } else if l.len() >= 2 && !is_ws(l[l.len() - 2]) && ws.len() > 0 {
            ws.drop_last().push(ws.last().push(c))
        } else {
            ws.push(seq![c])
        }
    }
}

/// The pieces of `s` between newlines; the last piece is what follows the
/// last newline.
pub open spec fn pieces(s: Seq<u8>) -> Seq<Seq<u8>>
    decreases s.len(),
{
    if s.len() == 0 {
        seq![Seq::empty()]
    } else {
        let ps = pieces(s.drop_last());
        if s.last() == 10 {
            ps.push(Seq::empty())
        } else {
            ps.drop_last().push(ps.last().push(s.last()))
        }
    }
}

/// A line that ended with a newline, without a carriage return before it.
pub open spec fn strip_cr(p: Seq<u8>) -> Seq<u8> {
    if p.len() > 0 && p.last() == 13 {
        p.drop_last()
    } else {
        p
    }
}

pub open spec fn contains(hay: Seq<u8>, pat: Seq<u8>) -> bool {
    exists|i: int| 0 <= i && i + pat.len() <= hay.len() && #[trigger] hay.subrange(i, i + pat.len()) == pat
}

pub open spec fn starts_with(hay: Seq<u8>, pat: Seq<u8>) -> bool {
    pat.len() <= hay.len() && hay.subrange(0, pat.len() as int) == pat
}

/// `==ERROR: AddressSanitize`
pub open spec fn error_marker() -> Seq<u8> {
    seq![61u8, 61, 69, 82, 82, 79, 82, 58, 32, 65, 100, 100, 114, 101, 115, 115, 83, 97, 110, 105, 116, 105, 122, 101]
}

/// `SUMMARY: AddressSanitizer`
pub open spec fn summary_marker() -> Seq<u8> {
    seq![83u8, 85, 77, 77, 65, 82, 89, 58, 32, 65, 100, 100, 114, 101, 115, 115, 83, 97, 110, 105, 116, 105, 122, 101, 114]
}

/// Four spaces and `#`: a stack frame line.
pub open spec fn frame_marker() -> Seq<u8> {
    seq![32u8, 32, 32, 32, 35]
}

/// What the scan of a crash report has gathered so far: whether the
/// sanitizer's report has begun, the frames' locations (concatenated), the
/// summary line and the error kind.
pub struct Scan {
    pub started: bool,
    pub frames: Seq<u8>,
    pub summary: Seq<u8>,
    pub error: Seq<u8>,
}

pub open spec fn third_word(l: Seq<u8>) -> Seq<u8> {
    if words(l).len() > 2 {
        words(l)[2]
    } else {
        Seq::empty()
    }
}

pub open spec fn last_word(l: Seq<u8>) -> Seq<u8> {
    if words(l).len() > 0 {
        words(l).last()
    } else {
        Seq::empty()
    }
}

/// One line of the report: the error line starts the report and names the
/// error kind (its third word), the summary line is kept whole, and each
/// frame line of the report adds its location (its last word).
pub open spec fn scan_line(st: Scan, line: Seq<u8>) -> Scan {
    let started = st.started || contains(line, error_marker());
    let error = if contains(line, error_marker()) { third_word(line) } else { st.error };
    let summary = if contains(line, summary_marker()) { line } else { st.summary };
    let frames = if started && starts_with(line, frame_marker()) {
        st.frames + last_word(line)
    } else {
        st.frames
    };
    Scan { started, frames, summary, error }
}

pub open spec fn scan_lines(lines: Seq<Seq<u8>>) -> Scan
    decreases lines.len(),
{
    if lines.len() == 0 {
        Scan { started: false, frames: Seq::empty(), summary: Seq::empty(), error: Seq::empty() }
    } else {
        scan_line(scan_lines(lines.drop_last()), lines.last())
    }
}

/// The lines of a report: newline-terminated lines without a carriage
/// return before the newline, then the rest if it is not empty.
pub open spec fn report_lines(s: Seq<u8>) -> Seq<Seq<u8>> {
    let ps = pieces(s);
    let done = ps.drop_last().map_values(|p: Seq<u8>| strip_cr(p));
    if ps.last().len() > 0 {
        done.push(ps.last())
    } else {
        done
    }
}

/// The report's scan.
pub open spec fn scan_report(s: Seq<u8>) -> Scan {
    scan_lines(report_lines(s))
}

/// What is hashed: the frames, then the summary, then the error kind.
pub open spec fn hash_input(s: Seq<u8>) -> Seq<u8> {
    scan_report(s).frames + scan_report(s).summary + scan_report(s).error
}

/// The identity of a crash: its error kind and the digest of its frames,
/// summary and error kind.
#[derive(Clone, Debug, PartialEq, Eq, Hash)]
pub struct CrashInfo {
    pub error: Vec<u8>,
    pub stack_hash: Vec<u8>,
}

fn find(hay: &Vec<u8>, pat: &Vec<u8>) -> (r: bool)
    ensures
        r == contains(hay@, pat@),
{
    if pat.len() > hay.len() {
        return false;
    }
    let last = hay.len() - pat.len();
    let mut i: usize = 0;
    while i <= last
        invariant
            i <= last,
            last == hay.len() - pat.len(),
            pat.len() <= hay.len(),
            forall|k: int| 0 <= k < i ==> #[trigger] hay@.subrange(k, k + pat.len()) != pat@,
        decreases last - i,
    {
        let mut j: usize = 0;
        let mut same = true;
        while j < pat.len()
            invariant
                j <= pat.len(),
                i + pat.len() <= hay.len(),
                same == (forall|k: int| 0 <= k < j ==> hay@[i + k] == pat@[k]),
            decreases pat.len() - j,
        {
            if hay[i + j] != pat[j] {
                same = false;
            }
            j = j + 1;
        }
        if same {
            assert(hay@.subrange(i as int, i + pat.len()) =~= pat@);
            return true;
        }
        let ghost k0 = choose|k: int| 0 <= k < pat.len() && hay@[i + k] != pat@[k];
        assert(hay@.subrange(i as int, i + pat.len())[k0] != pat@[k0]);
        if i == last {
            assert forall|k: int| 0 <= k && k + pat.len() <= hay.len() implies #[trigger] hay@.subrange(
                k,
                k + pat.len(),
            ) != pat@ by {
                if k == i {
                    assert(hay@.subrange(k, k + pat.len())[k0] != pat@[k0]);
                }
            }
            return false;
        }
        i = i + 1;
    }
    false
}

fn begins_with(hay: &Vec<u8>, pat: &Vec<u8>) -> (r: bool)
    ensures
        r == starts_with(hay@, pat@),
{
    if pat.len() > hay.len() {
        return false;
    }
    let mut j: usize = 0;
    while j < pat.len()
        invariant
            j <= pat.len() <= hay.len(),
            hay@.subrange(0, j as int) =~= pat@.subrange(0, j as int),
        decreases pat.len() - j,
    {
        if hay[j] != pat[j] {
            assert(hay@.subrange(0, pat.len() as int)[j as int] != pat@[j as int]);
            return false;
        }
        j = j + 1;
        assert(hay@.subrange(0, j as int) =~= pat@.subrange(0, j as int));
    }
    assert(pat@.subrange(0, pat.len() as int) =~= pat@);
    true
}

/// The third word and the last word of a line.
fn third_and_last_word(l: &Vec<u8>) -> (r: (Vec<u8>, Vec<u8>))
    ensures
        r.0@ == third_word(l@),
        r.1@ == last_word(l@),
{
    let mut count: usize = 0;
    let mut third: Vec<u8> = Vec::new();
    let mut last: Vec<u8> = Vec::new();
    let mut i: usize = 0;
    assert(l@.subrange(0, 0) =~= Seq::<u8>::empty());
    while i < l.len()
        invariant
            i <= l.len(),
            count == words(l@.subrange(0, i as int)).len(),
            count <= i,
            count > 0 ==> last@ == words(l@.subrange(0, i as int)).last(),
            count > 2 ==> third@ == words(l@.subrange(0, i as int))[2],
        decreases l.len() - i,
    {
        let c = l[i];
        let ghost pre = l@.subrange(0, i as int);
        let ghost pre1 = l@.subrange(0, i + 1);
        assert(pre1.drop_last() =~= pre);
        assert(pre1.last() == c);
        if c == 32 || (9 <= c && c <= 13) {
        } else if i >= 1 && !(l[i - 1] == 32 || (9 <= l[i - 1] && l[i - 1] <= 13)) && count > 0 {
            assert(pre1[pre1.len() - 2] == l@[i - 1]);
            last.push(c);
            if count == 3 {
                third.push(c);
            }
        } else {
            proof {
                if i >= 1 {
                    assert(pre1[pre1.len() - 2] == l@[i - 1]);
                }
            }
            count = count + 1;
            last = Vec::new();
            last.push(c);
            if count == 3 {
                third = Vec::new();
                third.push(c);
            }
            assert(last@ =~= seq![c]);
        }
        i = i + 1;
    }
    assert(l@.subrange(0, i as int) =~= l@);
    if count <= 2 {
        third = Vec::new();
    }
    if count == 0 {
        last = Vec::new();
    }
    (third, last)
}

fn marker_vec(which: u8) -> (r: Vec<u8>)
    ensures
        which == 0 ==> r@ == error_marker(),
        which == 1 ==> r@ == summary_marker(),
        which > 1 ==> r@ == frame_marker(),
{
    let v: Vec<u8> = if which == 0 {
        vec![61u8, 61, 69, 82, 82, 79, 82, 58, 32, 65, 100, 100, 114, 101, 115, 115, 83, 97, 110, 105, 116, 105, 122, 101]
    } else if which == 1 {
        vec![83u8, 85, 77, 77, 65, 82, 89, 58, 32, 65, 100, 100, 114, 101, 115, 115, 83, 97, 110, 105, 116, 105, 122, 101, 114]
    } else {
        vec![32u8, 32, 32, 32, 35]
    };
    proof {
        if which == 0 {
            assert(v@ =~= error_marker());
        } else if which == 1 {
            assert(v@ =~= summary_marker());
        } else {
            assert(v@ =~= frame_marker());
        }
    }
    v
}

struct ScanState {
    started: bool,
    frames: Vec<u8>,
    summary: Vec<u8>,
    error: Vec<u8>,
}

impl ScanState {
    spec fn view(&self) -> Scan {
        Scan { started: self.started, frames: self.frames@, summary: self.summary@, error: self.error@ }
    }

    fn line(&mut self, line: &Vec<u8>)
        ensures
            final(self).view() == scan_line(old(self).view(), line@),
    {
        let em = marker_vec(0);
        let sm = marker_vec(1);
        let fm = marker_vec(2);
        let is_error = find(line, &em);
        if is_error {
            self.started = true;
            let (third, _) = third_and_last_word(line);
            self.error = third;
        }
        if find(line, &sm) {
            self.summary = line.clone();
            assert(self.summary@ =~= line@);
        }
        if self.started && begins_with(line, &fm) {
            let (_, last) = third_and_last_word(line);
            append_all(&mut self.frames, &last);
        }
    }
}

fn strip_cr_vec(p: Vec<u8>) -> (r: Vec<u8>)
    ensures
        r@ == strip_cr(p@),
{
    let mut p = p;
    if p.len() > 0 && p[p.len() - 1] == 13 {
        p.pop();
    }
    p
}

fn append_all(dst: &mut Vec<u8>, src: &Vec<u8>)
    ensures
        final(dst)@ == old(dst)@ + src@,
{
    let mut k: usize = 0;
    while k < src.len()
        invariant
            k <= src.len(),
            dst@ =~= old(dst)@ + src@.subrange(0, k as int),
        decreases src.len() - k,
    {
        dst.push(src[k]);
        k = k + 1;
    }
    assert(src@.subrange(0, src.len() as int) =~= src@);
}

impl CrashInfo {
    /// Reads a sanitizer report: the error kind from its error line, the
    /// location of each stack frame after it, and the summary line; the
    /// crash is identified by the digest of the frames, the summary and the
    /// error kind, in that order.
    pub fn from_output_string(s: &str) -> (r: Self)
        ensures
            r.error@ == scan_report(s.spec_bytes()).error,
            r.stack_hash@ == sha256_of(hash_input(s.spec_bytes())),
    {
        let b = s.as_bytes();
        let ghost sb = s.spec_bytes();
        let mut st = ScanState { started: false, frames: Vec::new(), summary: Vec::new(), error: Vec::new() };
        let mut cur: Vec<u8> = Vec::new();
        let ghost mut done: Seq<Seq<u8>> = Seq::empty();
        let mut i: usize = 0;
        assert(sb.subrange(0, 0) =~= Seq::<u8>::empty());
        assert(done.map_values(|p: Seq<u8>| strip_cr(p)) =~= Seq::<Seq<u8>>::empty());
        while i < b.len()
            invariant
                i <= b@.len(),
                b@ == sb,
                pieces(sb.subrange(0, i as int)) == done.push(cur@),
                st.view() == scan_lines(done.map_values(|p: Seq<u8>| strip_cr(p))),
            decreases b.len() - i,
        {
            let c = b[i];
            let ghost pre1 = sb.subrange(0, i + 1);
            assert(pre1.drop_last() =~= sb.subrange(0, i as int));
            if c == 10 {
                let ghost piece = cur@;
                let line = strip_cr_vec(cur);
                st.line(&line);
                proof {
                    let m0 = done.map_values(|p: Seq<u8>| strip_cr(p));
                    let m1 = done.push(piece).map_values(|p: Seq<u8>| strip_cr(p));
                    assert(m1 =~= m0.push(line@));
                    assert(m1.drop_last() =~= m0);
                    done = done.push(piece);
                }
                cur = Vec::new();
                assert(pieces(pre1) =~= done.push(cur@));
            } else {
                cur.push(c);
                assert(pieces(pre1) =~= done.push(cur@));
            }
            i = i + 1;
        }
        assert(sb.subrange(0, i as int) =~= sb);
        proof {
            let m0 = done.map_values(|p: Seq<u8>| strip_cr(p));
            assert(pieces(sb).drop_last() =~= done);
            assert(m0.push(cur@).drop_last() =~= m0);
        }
        if cur.len() > 0 {
            st.line(&cur);
        }
        let mut input: Vec<u8> = Vec::new();
        append_all(&mut input, &st.frames);
        append_all(&mut input, &st.summary);
        append_all(&mut input, &st.error);
        let stack_hash = sha256(&input);
        CrashInfo { error: st.error, stack_hash }
    }
}

/// Two reports with the same frames, summary and error kind hash alike.
pub proof fn lemma_same_report_same_hash(s1: Seq<u8>, s2: Seq<u8>)
    requires
        scan_report(s1).frames == scan_report(s2).frames,
        scan_report(s1).summary == scan_report(s2).summary,
        scan_report(s1).error == scan_report(s2).error,
    ensures
        sha256_of(hash_input(s1)) == sha256_of(hash_input(s2)),
{
}

fn same_bytes(a: &Vec<u8>, b: &Vec<u8>) -> (r: bool)
    ensures
        r == (a@ == b@),
{
    if a.len() != b.len() {
        return false;
    }
    let mut i: usize = 0;
    while i < a.len()
        invariant
            i <= a.len() == b.len(),
            forall|k: int| 0 <= k < i ==> a@[k] == b@[k],
        decreases a.len() - i,
    {
        if a[i] != b[i] {
            return false;
        }
        i = i + 1;
    }
    assert(a@ =~= b@);
    true
}

pub open spec fn crash_key(c: CrashInfo) -> (Seq<u8>, Seq<u8>) {
    (c.error@, c.stack_hash@)
}

/// The crashes seen so far, each once.
pub struct Crashes {
    inner: Vec<CrashInfo>,
}

impl View for Crashes {
    type V = Seq<(Seq<u8>, Seq<u8>)>;

    closed spec fn view(&self) -> Seq<(Seq<u8>, Seq<u8>)> {
        self.inner@.map_values(|c: CrashInfo| crash_key(c))
    }
}

impl Crashes {
    pub fn new() -> (r: Self)
        ensures
            r@.len() == 0,
    {
        let r = Crashes { inner: Vec::new() };
        assert(r@ =~= Seq::<(Seq<u8>, Seq<u8>)>::empty());
        r
    }

    pub fn len(&self) -> (r: usize)
        ensures
            r == self@.len(),
    {
        self.inner.len()
    }

    /// Records the crash of a sanitizer report unless an identical one was
    /// seen: returns `(new, new, 1)`.
    pub fn dedup_crash(&mut self, crash_output: &str) -> (r: (bool, bool, usize))
        ensures
            ({
                let key = (
                    scan_report(crash_output.spec_bytes()).error,
                    sha256_of(hash_input(crash_output.spec_bytes())),
                );
                &&& r.0 == !old(self)@.contains(key)
                &&& r.1 == r.0
                &&& r.2 == 1
                &&& final(self)@ == if r.0 {
                    old(self)@.push(key)
                } else {
                    old(self)@
                }
            }),
    {
        let info = CrashInfo::from_output_string(crash_output);
        let ghost key = crash_key(info);
        let mut i: usize = 0;
        while i < self.inner.len()
            invariant
                i <= self.inner.len(),
                self@ == old(self)@,
                key == crash_key(info),
                key == (
                    scan_report(crash_output.spec_bytes()).error,
                    sha256_of(hash_input(crash_output.spec_bytes())),
                ),
                forall|k: int| 0 <= k < i ==> self@[k] != key,
            decreases self.inner.len() - i,
        {
            let e_same = same_bytes(&self.inner[i].error, &info.error);
            let h_same = same_bytes(&self.inner[i].stack_hash, &info.stack_hash);
            let same = e_same && h_same;
            let ghost cur = self.inner@[i as int];
            assert(self@[i as int] == crash_key(cur));
            assert(e_same == (cur.error@ == info.error@));
            assert(h_same == (cur.stack_hash@ == info.stack_hash@));
            assert(same == (crash_key(cur) == key));
            if same {
                assert(self@[i as int] == key);
                assert(old(self)@[i as int] == key);
                assert(old(self)@.contains(key));
                return (false, false, 1);
            }
            i = i + 1;
        }
        assert(!old(self)@.contains(key));
        self.inner.push(info);
        assert(self@ =~= old(self)@.push(key));
        (true, true, 1)
    }
}

} // verus!
