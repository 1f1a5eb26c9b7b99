use angora_core::gradient::{
    classify_descent, infer_endian, judge_candidate, pick_start, solver_step, try_reversed,
    DescendStatus, EndianGuess, Partial, SolverAction, SolverState, Verdict,
};
use angora_core::mut_input::{MutInput, MutOp};
use angora_core::tag::TagSeg;

#[test]
fn solver_steps() {
    let st = SolverState { epoch: 0, max_epoch: 3, num_restart: 0 };
    assert_eq!(solver_step(&st, DescendStatus::SolvedHalfWay).1, SolverAction::Stop);
    let (n, a) = solver_step(&st, DescendStatus::StepTooLarge);
    assert_eq!((n.epoch, a), (1, SolverAction::NextEpoch));
    let (n, a) = solver_step(&st, DescendStatus::ZeroGrad);
    assert_eq!((n.epoch, n.num_restart, a), (1, 1, SolverAction::Restart));
    let last = SolverState { epoch: 2, max_epoch: 3, num_restart: 0 };
    assert_eq!(solver_step(&last, DescendStatus::StepTooLarge).1, SolverAction::Stop);
    let spent = SolverState { epoch: 0, max_epoch: 30, num_restart: 9 };
    assert_eq!(solver_step(&spent, DescendStatus::Unable).1, SolverAction::Stop);
    let left = SolverState { epoch: 0, max_epoch: 30, num_restart: 8 };
    assert_eq!(solver_step(&left, DescendStatus::LeadsToHigherValue).1, SolverAction::Restart);
}

#[test]
fn start_point_choice() {
    assert_eq!(pick_start(Some(10), Some(5), None), 1);
    assert_eq!(pick_start(Some(10), Some(10), Some(1)), 2);
    assert_eq!(pick_start(Some(3), Some(10), Some(1)), 2);
    assert_eq!(pick_start(Some(3), Some(1), Some(0)), 1);
    assert_eq!(pick_start(None, None, None), 0);
    assert_eq!(pick_start(None, Some(7), None), 1);
    assert!(try_reversed(Some(2)));
    assert!(!try_reversed(Some(1)));
    assert!(!try_reversed(None));
}

#[test]
fn descent_outcomes() {
    assert_eq!(judge_candidate(Some(0), 5, true), Verdict::Solved);
    assert_eq!(judge_candidate(Some(-1), 5, false), Verdict::Solved);
    assert_eq!(judge_candidate(Some(-1), 5, true), Verdict::Better);
    assert_eq!(judge_candidate(Some(9), 5, true), Verdict::Worse);
    assert_eq!(judge_candidate(None, 5, true), Verdict::Unreachable);
    assert_eq!(classify_descent(false, 5, &vec![None, Some(3)], true), Ok((1, false)));
    assert_eq!(classify_descent(false, 5, &vec![Some(9), Some(0)], true), Ok((1, true)));
    assert_eq!(classify_descent(false, 5, &vec![None, None], true), Err(DescendStatus::Unable));
    assert_eq!(classify_descent(false, 5, &vec![None, Some(8)], true), Err(DescendStatus::LeadsToHigherValue));
    assert_eq!(classify_descent(true, 5, &vec![Some(8)], true), Err(DescendStatus::StepTooLarge));
    assert_eq!(classify_descent(false, 5, &vec![], true), Err(DescendStatus::Unable));
}

#[test]
fn equal_partials_keep_little_endian() {
    let tie = vec![Partial { num: 3, den: 1 }, Partial { num: 6, den: 2 }, Partial { num: 3, den: 1 }];
    assert_eq!(infer_endian(&tie), EndianGuess::Little);
}

#[test]
fn interesting_points_walk_segments() {
    let offs = vec![TagSeg { sign: false, begin: 0, end: 2 }, TagSeg { sign: false, begin: 2, end: 3 }];
    let mut m = MutInput::from(&offs, &vec![9u8, 9, 9], false);
    let mut sample = (0usize, 0usize);
    assert!(m.get_interesting_point(&mut sample, false));
    assert_eq!(m.get_value(), vec![0x80, 0xff, 9]);
    assert_eq!(sample, (0, 1));
    assert!(m.get_interesting_point(&mut sample, false));
    assert_eq!(m.get_value(), vec![0xff, 0xff, 9]);
    assert_eq!(sample, (1, 0));
    assert!(m.get_interesting_point(&mut sample, false));
    assert_eq!(m.get_value(), vec![0xff, 0xff, 128]);
    assert_eq!(sample, (2, 0));
    assert!(!m.get_interesting_point(&mut sample, false));
    assert!(!m.get_interesting_point(&mut (0, 0), true));
}

#[test]
fn segment_mutations() {
    let offs = vec![TagSeg { sign: false, begin: 0, end: 2 }];
    let mut m = MutInput::from(&offs, &vec![0xffu8, 0], false);
    m.apply_mut_op(MutOp::AddSub { entry: 0, delta: 1, direction: true });
    assert_eq!(m.get_value(), vec![0, 1]);
    m.apply_mut_op(MutOp::FlipBit { byte_idx: 1, bit_idx: 7 });
    assert_eq!(m.get_value(), vec![0, 0]);
    m.apply_mut_op(MutOp::SetInteresting { entry: 0, val: 1000 });
    assert_eq!(m.get_value(), vec![0xe8, 0x03]);
    m.apply_mut_op(MutOp::SetByte { byte_idx: 0, val: 7 });
    assert_eq!(m.get_value(), vec![7, 0x03]);
}

#[test]
fn set_nth_clamps() {
    let mut m = MutInput::from(&vec![TagSeg { sign: false, begin: 0, end: 1 }], &vec![10u8], false);
    assert_eq!(m.set_nth(0, 300), 255);
    assert_eq!(m.nth_val(0).to_i128(), 255);
    assert_eq!(m.set_nth(0, -4), 0);
}
