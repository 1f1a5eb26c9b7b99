use angora_core::gradient::{
    get_nth_direction, infer_endian, next_probe, partial_from_probes, EndianGuess, Partial, Probe,
    ProbeStep,
};
use angora_core::mut_input::{Endian, MutInput};
use angora_core::sign::Sign;
use angora_core::mut_input::{infer_dyn_n_sign, infer_dyn_s_sign};
use angora_core::tag::TagSeg;

/// Runs one probe of segment `idx` against the objective `f`.
fn probe(x: &mut MutInput, idx: usize, dir: i128, fx: i128, f: &dyn Fn(&MutInput) -> Option<i128>) -> Probe {
    let orig = x.get_value();
    let mut step = dir;
    let result = loop {
        let moved = x.add_nth_(idx, step) == step;
        let f_new = if moved { f(x) } else { None };
        match next_probe(step, moved, f_new, fx) {
            ProbeStep::Continue(s) => step = s,
            ProbeStep::Finish(p) => break p,
        }
    };
    x.apply_value(orig);
    result
}

fn partial(x: &mut MutInput, idx: usize, f: &dyn Fn(&MutInput) -> Option<i128>) -> Partial {
    let fx = f(x).unwrap();
    let up = probe(x, idx, 1, fx, f);
    let down = probe(x, idx, -1, fx, f);
    partial_from_probes(fx, up, down)
}

fn byte_input(v: u8) -> MutInput {
    MutInput::from(&vec![TagSeg { sign: false, begin: 0, end: 1 }], &vec![v], false)
}

#[test]
fn gradient_sign_follows_the_objective() {
    let up = |x: &MutInput| Some(x.get_value()[0] as i128);
    let down = |x: &MutInput| Some(-(x.get_value()[0] as i128));
    for v in 1..255u8 {
        let mut x = byte_input(v);
        assert_eq!(get_nth_direction(&partial(&mut x, 0, &up)), 1);
        assert_eq!(get_nth_direction(&partial(&mut x, 0, &down)), -1);
        assert_eq!(x.get_value(), vec![v]);
    }
    let mut zero = byte_input(0);
    let fx = up(&zero).unwrap();
    let p = probe(&mut zero, 0, -1, fx, &up);
    assert_eq!(p.f, None);
}

#[test]
fn probe_doubles_until_change() {
    // The objective only changes every fourth value.
    let coarse = |x: &MutInput| Some((x.get_value()[0] / 4) as i128);
    let mut x = byte_input(8);
    let fx = coarse(&x).unwrap();
    let p = probe(&mut x, 0, 1, fx, &coarse);
    // steps 1, 2, 4 move 1, 3, 7: the value 15 is the first with a change
    assert_eq!(p, Probe { f: Some(3), total_step: 7 });
    assert_eq!(next_probe(256, true, Some(fx), fx), ProbeStep::Finish(Probe { f: None, total_step: 1023 }));
    assert_eq!(partial_from_probes(0, Probe { f: None, total_step: 1 }, Probe { f: None, total_step: 1 }), Partial { num: 0, den: 1 });
}

#[test]
fn endian_of_big_endian_target() {
    // f = big-endian value of the four bytes, minus a target.
    let target: i128 = 0xDEADBEEF;
    let f = move |x: &MutInput| {
        let b = x.get_value();
        Some(((b[0] as i128) << 24 | (b[1] as i128) << 16 | (b[2] as i128) << 8 | b[3] as i128) - target)
    };
    let mut x = MutInput::from(&vec![TagSeg { sign: false, begin: 0, end: 4 }], &vec![0x10, 0x20, 0x30, 0x40], false);
    x.split_meta(0);
    let grads: Vec<Partial> = (0..4).map(|i| partial(&mut x, i, &f)).collect();
    assert_eq!(infer_endian(&grads), EndianGuess::Big);
    let mut y = MutInput::from(&vec![TagSeg { sign: false, begin: 0, end: 4 }], &vec![0x10, 0x20, 0x30, 0x40], false);
    y.get_meta();
    let le = move |x: &MutInput| {
        let b = x.get_value();
        Some((b[3] as i128) << 24 | (b[2] as i128) << 16 | (b[1] as i128) << 8 | b[0] as i128)
    };
    y.split_meta(0);
    let grads: Vec<Partial> = (0..4).map(|i| partial(&mut y, i, &le)).collect();
    assert_eq!(infer_endian(&grads), EndianGuess::Little);
    let mixed = vec![Partial { num: 1, den: 2 }, Partial { num: 5, den: 2 }, Partial { num: 1, den: 2 }];
    assert_eq!(infer_endian(&mixed), EndianGuess::Split);
    assert_eq!(Endian::from_assume_be(true), Endian::BigEndian);
}

#[test]
fn dynamic_sign_from_cliffs() {
    // An unsigned comparison jumps across 0xff..ff -> 0 and is smooth at 0x7f..ff -> 0x80..0.
    let umax = 0xffff_i128;
    assert_eq!(infer_dyn_n_sign(Some(umax - 1), Some(umax), Some(0), Some(1)), Sign::Unsigned);
    assert_eq!(infer_dyn_s_sign(Some(0x8001), Some(0x8000), Some(0x7fff), Some(0x7ffe)), Sign::Unsigned);
    // A signed one is smooth across -1 -> 0 and jumps across MAX -> MIN.
    assert_eq!(infer_dyn_n_sign(Some(-2), Some(-1), Some(0), Some(1)), Sign::Signed);
    assert_eq!(infer_dyn_s_sign(Some(-0x7fff), Some(-0x8000), Some(0x7fff), Some(0x7ffe)), Sign::Signed);
    assert_eq!(infer_dyn_s_sign(None, Some(1), Some(2), Some(3)), Sign::Unknown);
}

#[test]
fn cliff_fills_and_sign_commit() {
    let mut x = MutInput::from(&vec![TagSeg { sign: false, begin: 0, end: 2 }], &vec![1, 2], false);
    x.set_nth_fill(0, 0x00, Some(0x80), 1);
    assert_eq!(x.get_value(), vec![0x01, 0x80]);
    x.set_nth_fill(0, 0xff, None, -1);
    assert_eq!(x.get_value(), vec![0xfe, 0xff]);
    let mut be = MutInput::from(&vec![TagSeg { sign: false, begin: 0, end: 2 }], &vec![1, 2], true);
    be.set_nth_fill(0, 0xff, Some(0x7f), 0);
    assert_eq!(be.get_value(), vec![0x7f, 0xff]);
    x.update_dyn_sign_info(0, Sign::Signed, Sign::Signed);
    x.assign_sign(false);
    assert!(x.get_meta()[0].sign());
    assert_eq!(x.nth_val(0).to_i128(), -2);
}
