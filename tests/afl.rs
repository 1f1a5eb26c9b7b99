use angora_core::afl::{locate_diffs, run_ratio, splice_two_vec, splice_two_vec_at};

#[test]
fn test_locate_diffs() {
    let buf1: Vec<u8> = vec![1, 2, 3, 4, 5];
    let buf2: Vec<u8> = vec![1, 2, 3, 4, 5];
    let len = std::cmp::min(buf1.len(), buf2.len());
    let (f_loc, l_loc) = locate_diffs(&buf1, &buf2, len);
    assert!(f_loc.is_none());
    assert!(l_loc.is_none());
    let buf2: Vec<u8> = vec![0, 2, 3, 4, 5];
    let (f_loc, l_loc) = locate_diffs(&buf1, &buf2, len);
    assert_eq!(f_loc, Some(0));
    assert_eq!(l_loc, Some(0));
    let buf2: Vec<u8> = vec![1, 2, 0, 0, 5];
    let (f_loc, l_loc) = locate_diffs(&buf1, &buf2, len);
    assert_eq!(f_loc, Some(2));
    assert_eq!(l_loc, Some(3));
    let buf2: Vec<u8> = vec![0, 2, 0, 4, 5];
    let (f_loc, l_loc) = locate_diffs(&buf1, &buf2, len);
    assert_eq!(f_loc, Some(0));
    assert_eq!(l_loc, Some(2));
}

#[test]
fn test_splice() {
    let buf1: Vec<u8> = vec![1, 2, 3, 4, 5];
    let buf2: Vec<u8> = vec![1, 2, 2, 2, 5, 6];

    let new_vec = splice_two_vec(&buf1, &buf2).unwrap();
    // split at index 2 or 3
    assert!(new_vec == vec![1, 2, 2, 4, 5, 6] || new_vec == vec![1, 2, 2, 2, 5, 6]);
}

#[test]
fn splice_at_a_given_draw() {
    let buf1: Vec<u8> = vec![1, 2, 3, 4, 5];
    let buf2: Vec<u8> = vec![1, 2, 2, 2, 5, 6];
    assert_eq!(splice_two_vec_at(&buf1, &buf2, 0), Some(vec![1, 2, 2, 2, 5, 6]));
    assert_eq!(splice_two_vec_at(&buf1, &buf2, 1), Some(vec![1, 2, 2, 2, 5, 6]));
    let buf3: Vec<u8> = vec![1, 2, 2, 2, 0, 6];
    assert_eq!(splice_two_vec_at(&buf1, &buf3, 1), Some(vec![1, 2, 3, 2, 0, 6]));
    assert_eq!(splice_two_vec_at(&buf1, &buf3, 2), Some(vec![1, 2, 2, 2, 0, 6]));
    assert_eq!(splice_two_vec_at(&buf1, &vec![1, 0, 3, 4, 5], 7), None);
    assert_eq!(splice_two_vec_at(&vec![1], &vec![2], 0), None);
}

#[test]
fn havoc_rounds_by_path_length() {
    assert_eq!(run_ratio(1, 10), 2);
    assert_eq!(run_ratio(5, 10), 3);
    assert_eq!(run_ratio(10, 10), 5);
}

#[test]
fn havoc_plan_from_path_length() {
    let plan = angora_core::afl::AFLFuzz::new(1, 10);
    assert_eq!(plan.run_ratio, 2);
    assert_eq!(plan.rounds(), 90);
    assert_eq!(angora_core::afl::AFLFuzz::new(20, 10).rounds(), 225);
}

#[test]
fn longer_inputs_keep_the_seed() {
    let seed = vec![1u8, 2, 3];
    let grown = angora_core::afl::small_len_inputs(&seed);
    let lens: Vec<usize> = grown.iter().map(|b| b.len()).collect();
    assert_eq!(lens, vec![4, 6, 10, 18]);
    for b in &grown {
        assert_eq!(b[..3].to_vec(), seed);
    }
    assert_eq!(grown[2][..6].to_vec(), grown[1]);
    let big = vec![0u8; angora_core::config::MAX_INPUT_LEN - 5];
    assert_eq!(angora_core::afl::small_len_inputs(&big).len(), 2);
}
