//! The arithmetic and the decisions of the gradient solver: partial
//! derivatives from probes, and the byte order that per-byte partials point
//! to. The evaluations of the target between these steps are made by the
//! caller.
use vstd::prelude::*;
use crate::config::MAX_NUM_MINIMAL_OPTIMA_ROUND;

verus! {

/// Largest step of a probe.
pub const MAX_STEP: i128 = 256;

/// Bound on objective values: operands are 64-bit, so objectives stay
/// well inside it.
pub const F_BOUND: i128 = 0x1_0000_0000_0000_0000_0000;

/// The outcome of probing one direction: the first objective that differs
/// from the current one (`None` when the segment hit its bound, no change
/// was seen up to the largest step, or the target became unreachable), and
/// the total distance moved, `2 * |last step| - 1`.
#[derive(Clone, Copy, Debug, PartialEq, Eq)]
pub struct Probe {
    pub f: Option<i128>,
    pub total_step: u64,
}

/// A partial derivative as an exact fraction `num / den`, `den > 0`.
#[derive(Clone, Copy, Debug, PartialEq, Eq)]
pub struct Partial {
    pub num: i128,
    pub den: u64,
}

pub open spec fn f_ok(f: Option<i128>) -> bool {
    f.is_some() ==> -F_BOUND <= f.unwrap() <= F_BOUND
}

pub open spec fn probe_ok(p: Probe) -> bool {
    f_ok(p.f) && 1 <= p.total_step <= 1023
}

/// What a probe does next: go on with a doubled step, or stop with its
/// outcome.
#[derive(Clone, Copy, Debug, PartialEq, Eq)]
pub enum ProbeStep {
    Continue(i128),
    Finish(Probe),
}

pub open spec fn abs_i(x: int) -> int {
    if x < 0 {
        -x
    } else {
        x
    }
}

/// The next move of a probe whose last step was `step`: `moved` tells
/// whether the segment took the whole step and `f_new` is the objective
/// after it (`None` for unreachable).
pub open spec fn next_probe_spec(step: i128, moved: bool, f_new: Option<i128>, fx: i128) -> ProbeStep {
    let total = (2 * abs_i(step as int) - 1) as u64;
    if !moved {
        ProbeStep::Finish(Probe { f: None, total_step: total })
    } else if f_new.is_some() && f_new.unwrap() != fx {
        ProbeStep::Finish(Probe { f: f_new, total_step: total })
    } else if f_new.is_none() {
        ProbeStep::Finish(Probe { f: None, total_step: total })
    } else if abs_i(2 * step) > MAX_STEP {
        ProbeStep::Finish(Probe { f: None, total_step: (4 * abs_i(step as int) - 1) as u64 })
    } else {
        ProbeStep::Continue((2 * step) as i128)
    }
}

/// One step of a probe; a probe starts with a step of 1 or -1.
pub fn next_probe(step: i128, moved: bool, f_new: Option<i128>, fx: i128) -> (r: ProbeStep)
    requires
        1 <= abs_i(step as int) <= MAX_STEP,
    ensures
        r == next_probe_spec(step, moved, f_new, fx),
        r matches ProbeStep::Finish(p) ==> 1 <= p.total_step <= 1023,
{
    let a: i128 = if step < 0 {
        -step
    } else {
        step
    };
    let total = (2 * a - 1) as u64;
    if !moved {
        return ProbeStep::Finish(Probe { f: None, total_step: total });
    }
    match f_new {
        None => ProbeStep::Finish(Probe { f: None, total_step: total }),
        Some(v) => {
            if v != fx {
                ProbeStep::Finish(Probe { f: f_new, total_step: total })
            } else if 2 * a > MAX_STEP {
                ProbeStep::Finish(Probe { f: None, total_step: (4 * a - 1) as u64 })
            } else {
                ProbeStep::Continue(2 * step)
            }
        },
    }
}

/// The partial derivative from the two probes around the objective `fx`:
/// the difference quotient over both sides when both moved, one-sided when
/// only one did (divided, as the solver does, by the down probe's
/// distance), and zero when neither did.
pub open spec fn partial_spec(fx: i128, up: Probe, down: Probe) -> (int, int) {
    match (up.f, down.f) {
        (None, None) => (0, 1),
        (None, Some(d)) => (fx - d, down.total_step as int),
        (Some(u), None) => (u - fx, down.total_step as int),
        (Some(u), Some(d)) => (u - d, up.total_step + down.total_step),
    }
}

pub fn partial_from_probes(fx: i128, up: Probe, down: Probe) -> (r: Partial)
    requires
        -F_BOUND <= fx <= F_BOUND,
        probe_ok(up),
        probe_ok(down),
    ensures
        (r.num as int, r.den as int) == partial_spec(fx, up, down),
        r.den > 0,
{
    match (up.f, down.f) {
        (None, None) => Partial { num: 0, den: 1 },
        (None, Some(d)) => Partial { num: fx - d, den: down.total_step },
        (Some(u), None) => Partial { num: u - fx, den: down.total_step },
        (Some(u), Some(d)) => Partial { num: u - d, den: up.total_step + down.total_step },
    }
}

/// `-1`, `0` or `1`: the sign of the partial.
pub fn get_nth_direction(p: &Partial) -> (r: i8)
    ensures
        r == (if p.num > 0 {
            1i8
        } else if p.num < 0 {
            -1i8
        } else {
            0i8
        }),
{
    if p.num > 0 {
        1
    } else if p.num < 0 {
        -1
    } else {
        0
    }
}

/// An objective that grows with the segment gives a positive partial, one
/// that shrinks a negative partial, and a segment stuck on both sides a
/// zero partial.
pub proof fn lemma_gradient_sign(fx: i128, up: Probe, down: Probe)
    requires
        probe_ok(up),
        probe_ok(down),
    ensures
        (up.f.is_some() ==> up.f.unwrap() > fx) && (down.f.is_some() ==> down.f.unwrap() < fx) && (
        up.f.is_some() || down.f.is_some()) ==> partial_spec(fx, up, down).0 > 0,
        (up.f.is_some() ==> up.f.unwrap() < fx) && (down.f.is_some() ==> down.f.unwrap() > fx) && (
        up.f.is_some() || down.f.is_some()) ==> partial_spec(fx, up, down).0 < 0,
        up.f.is_none() && down.f.is_none() ==> partial_spec(fx, up, down).0 == 0,
        partial_spec(fx, up, down).1 > 0,
{
}

/// On the objective `f(x) = x` of one unsigned byte, the probes from an
/// inner point `v` each stop after one step, and the partial is `2 / 2`;
/// from 0 the down probe cannot move at all.
pub proof fn lemma_identity_objective_gradient(v: i128)
    requires
        0 < v < 255,
    ensures
        next_probe_spec(1, true, Some((v + 1) as i128), v) == ProbeStep::Finish(
            Probe { f: Some((v + 1) as i128), total_step: 1 },
        ),
        next_probe_spec(-1i128, true, Some((v - 1) as i128), v) == ProbeStep::Finish(
            Probe { f: Some((v - 1) as i128), total_step: 1 },
        ),
        partial_spec(
            v,
            Probe { f: Some((v + 1) as i128), total_step: 1 },
            Probe { f: Some((v - 1) as i128), total_step: 1 },
        ) == (2int, 2int),
        next_probe_spec(-1i128, false, None, 0i128) == ProbeStep::Finish(Probe { f: None, total_step: 1 }),
{
}

/// Byte order that per-byte partials point to.
#[derive(Clone, Copy, Debug, PartialEq, Eq)]
pub enum EndianGuess {
    Little,
    Big,
    Split,
}

/// `|a| > |b|` for two partials.
pub open spec fn abs_gt(a: Partial, b: Partial) -> bool {
    abs_i(a.num as int) * b.den > abs_i(b.num as int) * a.den
}

/// `a < |b|` for two partials.
pub open spec fn lt_abs(a: Partial, b: Partial) -> bool {
    (a.num as int) * b.den < abs_i(b.num as int) * a.den
}

/// Whether magnitudes never fall from one byte to the next (the most
/// significant byte last: little-endian), and whether each byte's partial
/// is at least the next one's magnitude (most significant first:
/// big-endian), as the solver tests them pair by pair.
pub open spec fn orders_upto(g: Seq<Partial>, n: int) -> (bool, bool)
    decreases n,
{
    if n <= 0 {
        (true, true)
    } else {
        let (asc, desc) = orders_upto(g, n - 1);
        let i = n - 1;
        if abs_gt(g[i], g[i + 1]) {
            (asc, false)
        } else if lt_abs(g[i], g[i + 1]) {
            (false, desc)
        } else {
            (asc, desc)
        }
    }
}

pub open spec fn endian_guess_spec(g: Seq<Partial>) -> EndianGuess {
    let (asc, desc) = orders_upto(g, g.len() - 1);
    if asc && !desc {
        EndianGuess::Big
    } else if desc {
        EndianGuess::Little
    } else {
        EndianGuess::Split
    }
}

pub open spec fn partial_ok(p: Partial) -> bool {
    0 < p.den <= 2046 && -2 * F_BOUND <= p.num <= 2 * F_BOUND
}

/// The byte order that the per-byte partials of one segment point to: a
/// segment whose magnitudes never fall stays little-endian (ties too), one
/// whose partials fall from the first byte on is big-endian, and one that
/// is neither is split into bytes.
pub fn infer_endian(grads: &Vec<Partial>) -> (r: EndianGuess)
    requires
        grads.len() >= 1,
        forall|i: int| 0 <= i < grads.len() ==> partial_ok(#[trigger] grads@[i]),
    ensures
        r == endian_guess_spec(grads@),
{
    let mut asc = true;
    let mut desc = true;
    let mut i: usize = 0;
    while i + 1 < grads.len()
        invariant
            i + 1 <= grads.len(),
            forall|k: int| 0 <= k < grads.len() ==> partial_ok(#[trigger] grads@[k]),
            (asc, desc) == orders_upto(grads@, i as int),
        decreases grads.len() - i,
    {
        let a = grads[i];
        let b = grads[i + 1];
        assert(partial_ok(grads@[i as int]) && partial_ok(grads@[i + 1]));
        let abs_a: i128 = if a.num < 0 {
            -a.num
        } else {
            a.num
        };
        let abs_b: i128 = if b.num < 0 {
            -b.num
        } else {
            b.num
        };
        proof {
            assert(abs_a * (b.den as int) <= 2 * F_BOUND * 2046) by (nonlinear_arith)
                requires
                    0 <= abs_a <= 2 * F_BOUND,
                    0 < b.den <= 2046,
            ;
            assert(abs_b * (a.den as int) <= 2 * F_BOUND * 2046) by (nonlinear_arith)
                requires
                    0 <= abs_b <= 2 * F_BOUND,
                    0 < a.den <= 2046,
            ;
            assert(a.num * (b.den as int) >= -2 * F_BOUND * 2046) by (nonlinear_arith)
                requires
                    -2 * F_BOUND <= a.num <= 2 * F_BOUND,
                    0 < b.den <= 2046,
            ;
            assert(a.num * (b.den as int) <= 2 * F_BOUND * 2046) by (nonlinear_arith)
                requires
                    -2 * F_BOUND <= a.num <= 2 * F_BOUND,
                    0 < b.den <= 2046,
            ;
        }
        if abs_a * (b.den as i128) > abs_b * (a.den as i128) {
            desc = false;
        } else if a.num * (b.den as i128) < abs_b * (a.den as i128) {
            asc = false;
        }
        i = i + 1;
    }
    if asc && !desc {
        EndianGuess::Big
    } else if desc {
        EndianGuess::Little
    } else {
        EndianGuess::Split
    }
}

/// Partials that strictly fall in magnitude from the first byte on, all of
/// one positive sign (a big-endian integer read as little-endian), point
/// to big-endian; strictly rising ones point to little-endian.
pub proof fn lemma_endian_of_monotone_partials(g: Seq<Partial>)
    requires
        g.len() >= 2,
        forall|i: int| 0 <= i < g.len() ==> #[trigger] g[i].den > 0 && g[i].num > 0,
    ensures
        (forall|i: int| 0 <= i < g.len() - 1 ==> #[trigger] abs_gt(g[i], g[i + 1])) ==> endian_guess_spec(g)
            == EndianGuess::Big,
        (forall|i: int| 0 <= i < g.len() - 1 ==> #[trigger] abs_gt(g[i + 1], g[i])) ==> endian_guess_spec(g)
            == EndianGuess::Little,
{
    if forall|i: int| 0 <= i < g.len() - 1 ==> #[trigger] abs_gt(g[i], g[i + 1]) {
        lemma_orders_falling(g, g.len() - 1);
    }
    if forall|i: int| 0 <= i < g.len() - 1 ==> #[trigger] abs_gt(g[i + 1], g[i]) {
        lemma_orders_rising(g, g.len() - 1);
    }
}

/// Partials of equal magnitude keep the segment little-endian.
pub proof fn lemma_endian_tie_keeps_le(g: Seq<Partial>)
    requires
        g.len() >= 2,
        forall|i: int| 0 <= i < g.len() ==> #[trigger] g[i].den > 0 && g[i].num > 0,
        forall|i: int| 0 <= i < g.len() - 1 ==> (#[trigger] g[i]).num * g[i + 1].den == g[i + 1].num * g[i].den,
    ensures
        endian_guess_spec(g) == EndianGuess::Little,
{
    lemma_orders_tied(g, g.len() - 1);
}

proof fn lemma_orders_tied(g: Seq<Partial>, n: int)
    requires
        1 <= n < g.len(),
        forall|i: int| 0 <= i < g.len() ==> #[trigger] g[i].den > 0 && g[i].num > 0,
        forall|i: int| 0 <= i < g.len() - 1 ==> (#[trigger] g[i]).num * g[i + 1].den == g[i + 1].num * g[i].den,
    ensures
        orders_upto(g, n) == (true, true),
    decreases n,
{
    if n > 1 {
        lemma_orders_tied(g, n - 1);
    } else {
        assert(orders_upto(g, 0) == (true, true));
    }
    let i = n - 1;
    assert(g[i].num * g[i + 1].den == g[i + 1].num * g[i].den);
    assert(g[i].den > 0 && g[i].num > 0 && g[i + 1].den > 0 && g[i + 1].num > 0);
}

proof fn lemma_orders_falling(g: Seq<Partial>, n: int)
    requires
        1 <= n < g.len(),
        forall|i: int| 0 <= i < g.len() ==> #[trigger] g[i].den > 0 && g[i].num > 0,
        forall|i: int| 0 <= i < g.len() - 1 ==> #[trigger] abs_gt(g[i], g[i + 1]),
    ensures
        orders_upto(g, n) == (true, false),
    decreases n,
{
    if n > 1 {
        lemma_orders_falling(g, n - 1);
    } else {
        assert(orders_upto(g, 0) == (true, true));
    }
    let i = n - 1;
    assert(abs_gt(g[i], g[i + 1]));
}

proof fn lemma_orders_rising(g: Seq<Partial>, n: int)
    requires
        1 <= n < g.len(),
        forall|i: int| 0 <= i < g.len() ==> #[trigger] g[i].den > 0 && g[i].num > 0,
        forall|i: int| 0 <= i < g.len() - 1 ==> #[trigger] abs_gt(g[i + 1], g[i]),
    ensures
        orders_upto(g, n) == (false, true),
    decreases n,
{
    if n > 1 {
        lemma_orders_rising(g, n - 1);
    } else {
        assert(orders_upto(g, 0) == (true, true));
    }
    let i = n - 1;
    assert(abs_gt(g[i + 1], g[i]));
    let a = g[i];
    let b = g[i + 1];
    assert(!abs_gt(a, b));
    assert(lt_abs(a, b));
}


/// How one descent along the gradient ended.
#[derive(Clone, Copy, Debug, PartialEq, Eq)]
pub enum DescendStatus {
    /// A move solved the condition.
    SolvedHalfWay,
    /// A doubled step stopped improving: the gradient is stale.
    StepTooLarge,
    /// Even the unit step leads only to unreachable inputs.
    Unable,
    /// Even the unit step leads only to larger objectives: a local minimum.
    LeadsToHigherValue,
    /// The gradient is zero.
    ZeroGrad,
}

/// Where the solver stands: the epoch about to run, the number of epochs,
/// and the restarts used.
#[derive(Clone, Copy, Debug, PartialEq, Eq)]
pub struct SolverState {
    pub epoch: usize,
    pub max_epoch: usize,
    pub num_restart: usize,
}

/// What the solver does after a descent.
#[derive(Clone, Copy, Debug, PartialEq, Eq)]
pub enum SolverAction {
    /// Recompute the gradient at the current input.
    NextEpoch,
    /// Pick a new start point, then go on with the next epoch.
    Restart,
    Stop,
}

pub open spec fn solver_step_spec(st: SolverState, ev: DescendStatus) -> (SolverState, SolverAction) {
    let next = SolverState { epoch: (st.epoch + 1) as usize, ..st };
    match ev {
        DescendStatus::SolvedHalfWay => (st, SolverAction::Stop),
        DescendStatus::StepTooLarge => if st.epoch + 1 >= st.max_epoch {
            (next, SolverAction::Stop)
        } else {
            (next, SolverAction::NextEpoch)
        },
        _ => if st.num_restart > MAX_NUM_MINIMAL_OPTIMA_ROUND || st.epoch + 1 >= st.max_epoch {
            (next, SolverAction::Stop)
        } else {
            (SolverState { num_restart: (st.num_restart + 1) as usize, ..next }, SolverAction::Restart)
        },
    }
}

/// The solver's decision after a descent: stop once solved; after a stale
/// gradient go on to the next epoch; after a dead end restart from a new
/// point while restarts are left; stop when the epochs are spent.
pub fn solver_step(st: &SolverState, ev: DescendStatus) -> (r: (SolverState, SolverAction))
    requires
        st.epoch < st.max_epoch,
        st.num_restart < usize::MAX,
    ensures
        r == solver_step_spec(*st, ev),
{
    let next = SolverState { epoch: st.epoch + 1, ..*st };
    match ev {
        DescendStatus::SolvedHalfWay => (*st, SolverAction::Stop),
        DescendStatus::StepTooLarge => {
            if st.epoch + 1 >= st.max_epoch {
                (next, SolverAction::Stop)
            } else {
                (next, SolverAction::NextEpoch)
            }
        },
        _ => {
            if st.num_restart > MAX_NUM_MINIMAL_OPTIMA_ROUND || st.epoch + 1 >= st.max_epoch {
                (next, SolverAction::Stop)
            } else {
                (SolverState { num_restart: st.num_restart + 1, ..next }, SolverAction::Restart)
            }
        },
    }
}

/// `a` is a smaller objective than `b`; an unreachable one is larger than
/// any other.
pub open spec fn obj_lt(a: Option<i128>, b: Option<i128>) -> bool {
    match (a, b) {
        (Some(x), Some(y)) => x < y,
        (Some(_), None) => true,
        _ => false,
    }
}

/// Whether the magic bytes reversed are worth a run: only after the magic
/// bytes as recorded left an objective above 1.
pub open spec fn try_reversed_spec(f_magic: Option<i128>) -> bool {
    f_magic.is_some() && f_magic.unwrap() > 1
}

pub fn try_reversed(f_magic: Option<i128>) -> (r: bool)
    ensures
        r == try_reversed_spec(f_magic),
{
    match f_magic {
        Some(v) => v > 1,
        None => false,
    }
}

/// The start point: 0 for the input as it is, 1 for the recorded magic
/// bytes, 2 for them reversed; the smallest objective wins, the earlier one
/// on ties, and the reversed bytes count only where they were worth a run.
pub open spec fn pick_start_spec(f0: Option<i128>, f_magic: Option<i128>, f_rev: Option<i128>) -> u8 {
    let best1: (u8, Option<i128>) = if obj_lt(f_magic, f0) { (1, f_magic) } else { (0, f0) };
    if try_reversed_spec(f_magic) && obj_lt(f_rev, best1.1) {
        2
    } else {
        best1.0
    }
}

pub fn pick_start(f0: Option<i128>, f_magic: Option<i128>, f_rev: Option<i128>) -> (r: u8)
    ensures
        r == pick_start_spec(f0, f_magic, f_rev),
        r == 0 ==> !obj_lt(f_magic, f0) && !(try_reversed_spec(f_magic) && obj_lt(f_rev, f0)),
        r == 1 ==> obj_lt(f_magic, f0) && !(try_reversed_spec(f_magic) && obj_lt(f_rev, f_magic)),
        r == 2 ==> try_reversed_spec(f_magic) && obj_lt(f_rev, f0) && obj_lt(f_rev, f_magic),
{
    let lt = |a: Option<i128>, b: Option<i128>| -> (r: bool)
        ensures
            r == obj_lt(a, b),
        {
            match (a, b) {
                (Some(x), Some(y)) => x < y,
                (Some(_), None) => true,
                _ => false,
            }
        };
    let (mut best, mut fbest): (u8, Option<i128>) = if lt(f_magic, f0) {
        (1, f_magic)
    } else {
        (0, f0)
    };
    if try_reversed(f_magic) && lt(f_rev, fbest) {
        best = 2;
    }
    best
}

/// What one candidate move's objective means for the descent.
#[derive(Clone, Copy, Debug, PartialEq, Eq, Structural)]
pub enum Verdict {
    Unreachable,
    Solved,
    Better,
    Worse,
}

pub open spec fn solved_obj(f: int, exact: bool) -> bool {
    if exact {
        f == 0
    } else {
        f <= 0
    }
}

pub open spec fn judge_spec(f_new: Option<i128>, f_curr: i128, exact: bool) -> Verdict {
    match f_new {
        None => Verdict::Unreachable,
        Some(v) => if solved_obj(v as int, exact) {
            Verdict::Solved
        } else if abs_i(v as int) < abs_i(f_curr as int) {
            Verdict::Better
        } else {
            Verdict::Worse
        },
    }
}

/// A candidate is kept when it solves the condition or brings the
/// objective closer to zero.
pub fn judge_candidate(f_new: Option<i128>, f_curr: i128, exact: bool) -> (r: Verdict)
    requires
        obj_in_bounds(f_new),
        -F_BOUND <= f_curr <= F_BOUND,
    ensures
        r == judge_spec(f_new, f_curr, exact),
{
    match f_new {
        None => Verdict::Unreachable,
        Some(v) => {
            let solved = if exact {
                v == 0
            } else {
                v <= 0
            };
            let av = if v < 0 {
                -v
            } else {
                v
            };
            let ac = if f_curr < 0 {
                -f_curr
            } else {
                f_curr
            };
            if solved {
                Verdict::Solved
            } else if av < ac {
                Verdict::Better
            } else {
                Verdict::Worse
            }
        },
    }
}

pub open spec fn obj_in_bounds(f: Option<i128>) -> bool {
    f_ok(f)
}

/// The end of a descent step over the candidates' objectives, judged in
/// order: the first that solves or improves is taken (`Ok` with its
/// index and whether it solved); otherwise the step fails: with a stale
/// gradient when earlier steps moved, a trap when every candidate was
/// unreachable, a local minimum otherwise.
pub open spec fn classify_spec(started: bool, f_curr: i128, fs: Seq<Option<i128>>, exact: bool) -> Result<(int, bool), DescendStatus>
    decreases fs.len(),
{
    if fs.len() == 0 {
        if started {
            Err(DescendStatus::StepTooLarge)
        } else {
            Err(DescendStatus::Unable)
        }
    } else {
        let v = judge_spec(fs[0], f_curr, exact);
        if v == Verdict::Solved {
            Ok((0, true))
        } else if v == Verdict::Better {
            Ok((0, false))
        } else {
            match classify_spec(started, f_curr, fs.drop_first(), exact) {
                Ok((i, s)) => Ok((i + 1, s)),
                Err(e) => if !started && v == Verdict::Worse {
                    Err(DescendStatus::LeadsToHigherValue)
                } else {
                    Err(e)
                },
            }
        }
    }
}

pub fn classify_descent(started: bool, f_curr: i128, fs: &Vec<Option<i128>>, exact: bool) -> (r: Result<(usize, bool), DescendStatus>)
    requires
        -F_BOUND <= f_curr <= F_BOUND,
        forall|k: int| 0 <= k < fs.len() ==> obj_in_bounds(#[trigger] fs@[k]),
    ensures
        match r {
            Ok((i, s)) => classify_spec(started, f_curr, fs@, exact) == Ok::<(int, bool), DescendStatus>((i as int, s)),
            Err(e) => classify_spec(started, f_curr, fs@, exact) == Err::<(int, bool), DescendStatus>(e),
        },
{
    let mut k: usize = fs.len();
    let mut res: Result<(usize, bool), DescendStatus> = if started {
        Err(DescendStatus::StepTooLarge)
    } else {
        Err(DescendStatus::Unable)
    };
    assert(fs@.subrange(fs.len() as int, fs.len() as int) =~= Seq::<Option<i128>>::empty());
    while k > 0
        invariant
            k <= fs.len(),
            -F_BOUND <= f_curr <= F_BOUND,
            forall|q: int| 0 <= q < fs.len() ==> obj_in_bounds(#[trigger] fs@[q]),
            match res {
                Ok((i, s)) => k <= i < fs.len() && classify_spec(started, f_curr, fs@.subrange(k as int, fs.len() as int), exact)
                    == Ok::<(int, bool), DescendStatus>((i - k, s)),
                Err(e) => classify_spec(started, f_curr, fs@.subrange(k as int, fs.len() as int), exact)
                    == Err::<(int, bool), DescendStatus>(e),
            },
        decreases k,
    {
        let ghost rest = fs@.subrange(k as int, fs.len() as int);
        let ghost cur = fs@.subrange(k - 1, fs.len() as int);
        assert(cur.drop_first() =~= rest);
        let v = judge_candidate(fs[k - 1], f_curr, exact);
        if v == Verdict::Solved {
            res = Ok((k - 1, true));
        } else if v == Verdict::Better {
            res = Ok((k - 1, false));
        } else {
            match res {
                Ok(_) => {},
                Err(_) => {
                    if !started && v == Verdict::Worse {
                        res = Err(DescendStatus::LeadsToHigherValue);
                    }
                },
            }
        }
        k = k - 1;
    }
    assert(fs@.subrange(0, fs.len() as int) =~= fs@);
    res
}


/// The probe up from a byte holding `b`, on an objective that moves by `w`
/// per unit of the byte: it stops at once, with the next objective, unless
/// the byte is already at its top.
pub open spec fn linear_probe_up(fx: i128, w: int, b: u8) -> Probe {
    if b < 255 {
        Probe { f: Some((fx + w) as i128), total_step: 1 }
    } else {
        Probe { f: None, total_step: 1 }
    }
}

pub open spec fn linear_probe_down(fx: i128, w: int, b: u8) -> Probe {
    if b > 0 {
        Probe { f: Some((fx - w) as i128), total_step: 1 }
    } else {
        Probe { f: None, total_step: 1 }
    }
}

/// The partial along a byte of weight `w` holding `b`.
pub open spec fn linear_partial(w: int, b: u8) -> Partial {
    if 0 < b < 255 {
        Partial { num: (2 * w) as i128, den: 2 }
    } else {
        Partial { num: w as i128, den: 1 }
    }
}

/// The per-byte partials of an objective that reads `bytes` as a
/// big-endian integer (minus a constant), taken at objective `fx`.
pub open spec fn big_endian_partials(bytes: Seq<u8>) -> Seq<Partial> {
    Seq::new(
        bytes.len(),
        |k: int| linear_partial(crate::rw::byte_range((bytes.len() - 1 - k) as nat) as int, bytes[k]),
    )
}

/// On an objective linear in a byte with weight `w`, each probe takes one
/// step, and together they give the partial `linear_partial(w, b)`.
pub proof fn lemma_linear_probes(fx: i128, w: int, b: u8)
    requires
        1 <= w <= 0x100_0000_0000_0000,
        -F_BOUND <= fx <= F_BOUND,
    ensures
        b < 255 ==> next_probe_spec(1, true, Some((fx + w) as i128), fx) == ProbeStep::Finish(
            linear_probe_up(fx, w, b),
        ),
        b == 255 ==> next_probe_spec(1, false, None, fx) == ProbeStep::Finish(linear_probe_up(fx, w, b)),
        b > 0 ==> next_probe_spec(-1i128, true, Some((fx - w) as i128), fx) == ProbeStep::Finish(
            linear_probe_down(fx, w, b),
        ),
        b == 0 ==> next_probe_spec(-1i128, false, None, fx) == ProbeStep::Finish(linear_probe_down(fx, w, b)),
        partial_spec(fx, linear_probe_up(fx, w, b), linear_probe_down(fx, w, b)) == (
            linear_partial(w, b).num as int,
            linear_partial(w, b).den as int,
        ),
{
}

/// A segment whose objective reads its bytes as a big-endian integer is
/// found big-endian: the partials fall by a factor of 256 from each byte
/// to the next, whatever the bytes hold.
pub proof fn lemma_big_endian_target(bytes: Seq<u8>)
    requires
        2 <= bytes.len() <= 8,
    ensures
        endian_guess_spec(big_endian_partials(bytes)) == EndianGuess::Big,
{
    let n = bytes.len();
    let g = big_endian_partials(bytes);
    crate::rw::lemma_byte_range_values();
    assert forall|i: int| 0 <= i < g.len() implies #[trigger] g[i].den > 0 && g[i].num > 0 by {
        crate::rw::lemma_byte_range_pos((n - 1 - i) as nat);
        crate::rw::lemma_byte_range_mono((n - 1 - i) as nat, 7);
    }
    assert forall|i: int| 0 <= i < g.len() - 1 implies #[trigger] abs_gt(g[i], g[i + 1]) by {
        let w1 = crate::rw::byte_range((n - 1 - (i + 1)) as nat);
        let w0 = crate::rw::byte_range((n - 1 - i) as nat);
        assert(w0 == 256 * w1);
        crate::rw::lemma_byte_range_pos((n - 1 - (i + 1)) as nat);
        crate::rw::lemma_byte_range_mono((n - 1 - i) as nat, 7);
        assert(w0 <= 0x100_0000_0000_0000);
        let a = g[i];
        let b = g[i + 1];
        assert(a == linear_partial(w0 as int, bytes[i]));
        assert(b == linear_partial(w1 as int, bytes[i + 1]));
        assert(a.num as int == 2 * w0 && a.den == 2 || a.num as int == w0 && a.den == 1);
        assert(b.num as int == 2 * w1 && b.den == 2 || b.num as int == w1 && b.den == 1);
        assert(abs_i(a.num as int) * b.den > abs_i(b.num as int) * a.den);
    }
    lemma_endian_of_monotone_partials(g);
}

} // verus!
