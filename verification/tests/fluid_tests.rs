use gfd::fluid::{
    diagonal_positions, face_patch, face_patch_tables, face_positions, find_in_row, BoundaryPatch,
    LevelSetSolver, WallFunctionType, Xorshift64,
};

fn step(x: u64) -> u64 {
    let mut x = x;
    x ^= x << 13;
    x ^= x >> 7;
    x ^= x << 17;
    x
}

#[test]
fn xorshift_sequence() {
    let mut g = Xorshift64::new(42);
    let a = g.next_u64();
    let b = g.next_u64();
    assert_eq!(a, step(42));
    assert_eq!(b, step(step(42)));
    assert_ne!(a, 0);
}

#[test]
fn zero_seed_is_replaced() {
    let mut g = Xorshift64::new(0);
    assert_eq!(g.next_u64(), step(0x5DEECE66D));
}

#[test]
fn xorshift_never_reaches_zero() {
    let mut g = Xorshift64::new(1);
    for _ in 0..1000 {
        assert_ne!(g.next_u64(), 0);
    }
}

#[test]
fn level_set_settings() {
    let s = LevelSetSolver::new(7);
    assert_eq!(s.reinit_iterations, 7);
    assert_ne!(WallFunctionType::Standard, WallFunctionType::Spalding);
}

#[test]
fn csr_lookups() {
    // rows: 0 -> [0, 1], 1 -> [0, 1, 2], 2 -> [1, 2]
    let row_ptr = vec![0, 2, 5, 7];
    let col_idx = vec![0, 1, 0, 1, 2, 1, 2];
    assert_eq!(find_in_row(&row_ptr, &col_idx, 1, 2, 99), 4);
    assert_eq!(find_in_row(&row_ptr, &col_idx, 0, 2, 99), 99);
    assert_eq!(diagonal_positions(3, &row_ptr, &col_idx), vec![0, 3, 6]);
    assert_eq!(
        face_positions(&row_ptr, &col_idx, &vec![(0, 1), (1, 2), (0, 2)]),
        vec![(1, 2), (4, 5), (0, 5)]
    );
}

#[test]
fn missing_diagonal_reads_as_zero() {
    let row_ptr = vec![0, 1, 2];
    let col_idx = vec![1, 0];
    assert_eq!(diagonal_positions(2, &row_ptr, &col_idx), vec![0, 0]);
}

#[test]
fn patch_tables_name_each_patch_once() {
    let patches = vec![
        BoundaryPatch { name: "inlet".to_string(), face_ids: vec![0, 1] },
        BoundaryPatch { name: "wall".to_string(), face_ids: vec![2, 9] },
        BoundaryPatch { name: "inlet".to_string(), face_ids: vec![3] },
        BoundaryPatch { name: "outlet".to_string(), face_ids: vec![1] },
    ];
    let (names, cache) = face_patch_tables(5, &patches);
    assert_eq!(names, vec!["inlet".to_string(), "wall".to_string(), "outlet".to_string()]);
    assert_eq!(cache, vec![Some(0), Some(2), Some(1), Some(0), None]);
    assert_eq!(face_patch(&names, &cache, 1), Some(&"outlet".to_string()));
    assert_eq!(face_patch(&names, &cache, 4), None);
    assert_eq!(face_patch(&names, &cache, 9), None);
}
