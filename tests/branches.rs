use angora_core::branches::{count_lookup, get_path, BranchCountTable, GlobalBranches, StatusType, Trace};

#[test]
fn bucket_values() {
    let expected = [(0u8, 0u8), (1, 1), (2, 2), (3, 4), (4, 8), (7, 8), (8, 16), (15, 16), (16, 32), (31, 32), (32, 64), (127, 64), (128, 128), (255, 128)];
    for (c, b) in expected {
        assert_eq!(count_lookup(c), b);
    }
}

#[test]
fn bucket_is_monotonic_on_all_counts() {
    for x in 0..=255u8 {
        for y in x..=255u8 {
            assert!(count_lookup(x) <= count_lookup(y));
        }
    }
}

#[test]
fn path_clamps_and_skips_zero() {
    let table: Vec<u16> = vec![0, 1, 300, 0, 5];
    assert_eq!(get_path(&table), vec![(1, 1), (2, 128), (4, 8)]);
}

#[test]
fn novelty_is_idempotent() {
    let mut gb = GlobalBranches::new();
    gb.resize(8);
    let path = get_path(&vec![0u16, 3, 0, 1, 0, 0, 0, 200]);
    let (novel, new_edge, edges) = gb.has_new(&path, StatusType::Normal);
    assert!(novel && new_edge);
    assert_eq!(edges, 3);
    assert_eq!(gb.density, 3);
    assert_eq!(gb.virgin_branches.get(1), 255 & !4);
    let snapshot: Vec<u8> = (0..8).map(|i| gb.virgin_branches.get(i)).collect();
    let (novel, new_edge, edges) = gb.has_new(&path, StatusType::Normal);
    assert!(!novel && !new_edge);
    assert_eq!(edges, 3);
    let after: Vec<u8> = (0..8).map(|i| gb.virgin_branches.get(i)).collect();
    assert_eq!(snapshot, after);
    assert_eq!(gb.density, 3);
}

#[test]
fn higher_bucket_is_novel_again() {
    let mut gb = GlobalBranches::new();
    gb.resize(4);
    gb.has_new(&get_path(&vec![1u16, 0, 0, 0]), StatusType::Normal);
    let (novel, new_edge, _) = gb.has_new(&get_path(&vec![2u16, 0, 0, 0]), StatusType::Normal);
    assert!(novel);
    assert!(!new_edge);
}

#[test]
fn statuses_use_their_own_map() {
    let mut gb = GlobalBranches::new();
    gb.resize(4);
    let path = get_path(&vec![1u16, 0, 0, 0]);
    assert_eq!(gb.has_new(&path, StatusType::Timeout), (true, true, 1));
    assert_eq!(gb.density, 0);
    assert_eq!(gb.has_new(&path, StatusType::Crash), (true, true, 1));
    assert_eq!(gb.has_new(&path, StatusType::Normal), (true, true, 1));
    assert_eq!(gb.has_new(&path, StatusType::Skip), (false, false, 0));
    assert_eq!(gb.get_density(), 0);
}

#[test]
fn trace_resize_fills_fresh_cells() {
    let mut t = Trace::empty();
    t.resize(3);
    assert_eq!(t.len(), 3);
    assert_eq!(t.get(2), 255);
    t.resize(1);
    assert_eq!(t.len(), 1);
}

#[test]
fn branch_table_zeroing() {
    let mut t = BranchCountTable { branch_table: vec![1, 2, 3] };
    t.set_zero();
    assert_eq!(t.branch_table, vec![0, 0, 0]);
}
