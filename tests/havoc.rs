use angora_core::afl::{apply_havoc, get_interesting_bytes, havoc_flip, HavocOp};
use angora_core::branches::Trace;
use angora_core::config::MAX_INPUT_LEN;
use angora_core::mut_input::MutInput;
use angora_core::tag::TagSeg;

#[test]
fn each_havoc_op() {
    let base = vec![1u8, 2, 3, 4, 5, 6];
    let run = |op: HavocOp| {
        let mut b = base.clone();
        apply_havoc(&mut b, op);
        b
    };
    assert_eq!(run(HavocOp::FlipBit { byte_idx: 1, bit_idx: 0 }), vec![1, 0x82, 3, 4, 5, 6]);
    assert_eq!(run(HavocOp::SetValue { byte_idx: 2, size: 2, val: 0xabcd }), vec![1, 2, 0xcd, 0xab, 5, 6]);
    assert_eq!(
        run(HavocOp::AddSub { byte_idx: 0, size: 2, delta: 1, direction: true, swap: true }),
        vec![1, 3, 3, 4, 5, 6]
    );
    assert_eq!(run(HavocOp::SetByte { byte_idx: 5, val: 9 }), vec![1, 2, 3, 4, 5, 9]);
    assert_eq!(run(HavocOp::CloneBytes { from: 0, size: 2, before: 6 }), vec![1, 2, 3, 4, 5, 6, 1, 2]);
    assert_eq!(run(HavocOp::InsertConst { before: 1, size: 2, val: 7 }), vec![1, 7, 7, 2, 3, 4, 5, 6]);
    assert_eq!(run(HavocOp::Overwrite { from: 0, size: 3, to: 2 }), vec![1, 2, 1, 2, 3, 6]);
    assert_eq!(run(HavocOp::OverwriteConst { to: 4, size: 2, val: 0 }), vec![1, 2, 3, 4, 0, 0]);
    assert_eq!(run(HavocOp::Delete { from: 1, size: 3 }), vec![1, 5, 6]);
    assert_eq!(run(HavocOp::Nothing), base);
}

#[test]
fn havoc_keeps_length_bounded() {
    for _ in 0..200 {
        let mut b: Vec<u8> = (0..40).collect();
        havoc_flip(&mut b, 64, 60);
        assert!(b.len() <= MAX_INPUT_LEN);
    }
    let mut empty: Vec<u8> = vec![];
    havoc_flip(&mut empty, 64, 60);
    assert!(empty.is_empty());
}

#[test]
fn interesting_values() {
    assert_eq!(get_interesting_bytes(1), vec![128, 255, 0, 1, 16, 32, 64, 100, 127]);
    assert_eq!(get_interesting_bytes(2).len(), 19);
    assert_eq!(get_interesting_bytes(4)[19], 0x8000_0000);
    assert_eq!(get_interesting_bytes(8)[1], u64::MAX);
}

#[test]
fn randomizing_keeps_shape() {
    let offs = vec![TagSeg { sign: false, begin: 0, end: 4 }, TagSeg { sign: true, begin: 4, end: 7 }];
    let mut m = MutInput::from(&offs, &vec![0u8; 7], false);
    for _ in 0..50 {
        m.randomize_all_with_weight(3);
        assert_eq!(m.val_len(), 7);
        assert_eq!(m.len(), 4);
    }
    m.randomize_all_uniform();
    assert_eq!(m.val_len(), 7);
}

#[test]
fn slices_and_single_segment_copy() {
    let offs = vec![TagSeg { sign: false, begin: 0, end: 2 }, TagSeg { sign: false, begin: 2, end: 4 }];
    let mut m = MutInput::from(&offs, &vec![1u8, 2, 3, 4], false);
    assert_eq!(m.get_slice(1), vec![3, 4]);
    m.write_slice(0, &vec![9, 8]);
    assert_eq!(m.get_value(), vec![9, 8, 3, 4]);
    let one = m.clone_nth(1);
    assert_eq!(one.len(), 1);
    assert_eq!(one.nth_val(0).to_i128(), 0x0403);
}

#[test]
fn trace_coverage() {
    let mut a = Trace::empty();
    a.resize(2);
    let mut b = Trace::empty();
    b.resize(2);
    assert!(a.covers(&b));
    let mut c = Trace::empty();
    c.resize(1);
    assert_eq!(c.len(), 1);
}
