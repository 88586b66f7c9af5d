use slice_diff_patch::{
    Change, DiffRecord, LcsRecord, WuRecord, diff_changes, diff_diff, insert, lcs_changes,
    lcs_diff, patch, remove, wu_changes, wu_diff,
};

#[test]
fn mixed_edit_diff_backend() {
    let a = vec!["one", "TWO", "three", "four"];
    let b = vec!["zero", "one", "two", "four"];
    let d = diff_diff(&a, &b);
    assert_eq!(
        d,
        vec![Change::Insert((0, "zero")), Change::Remove(2), Change::Update((2, "two"))]
    );
    assert_eq!(patch(&a, &d), b);
}

#[test]
fn mixed_edit_lcs_backend() {
    let a = vec!["one", "TWO", "three", "four"];
    let b = vec!["zero", "one", "two", "four"];
    let d = lcs_diff(&a, &b);
    assert_eq!(
        d,
        vec![Change::Insert((0, "zero")), Change::Update((2, "two")), Change::Remove(3)]
    );
    assert_eq!(patch(&a, &d), b);
}

#[test]
fn mixed_edit_wu_backend() {
    let a = vec!["one", "TWO", "three", "four"];
    let b = vec!["zero", "one", "two", "four"];
    let d = wu_diff(&a, &b);
    assert_eq!(
        d,
        vec![Change::Insert((0, "zero")), Change::Remove(2), Change::Update((2, "two"))]
    );
    assert_eq!(patch(&a, &d), b);
}

#[test]
fn last_element_replaced_all_backends() {
    let a = [1, 2, 3];
    let b = [1, 2, 4];
    assert_eq!(diff_diff(&a, &b), vec![Change::Update((2, 4))]);
    assert_eq!(lcs_diff(&a, &b), vec![Change::Update((2, 4))]);
    assert_eq!(wu_diff(&a, &b), vec![Change::Update((2, 4))]);
}

#[test]
fn insert_into_empty_all_backends() {
    let a: [i32; 0] = [];
    let b = [2];
    assert_eq!(diff_diff(&a, &b), vec![Change::Insert((0, 2))]);
    assert_eq!(lcs_diff(&a, &b), vec![Change::Insert((0, 2))]);
    assert_eq!(wu_diff(&a, &b), vec![Change::Insert((0, 2))]);
}

#[test]
fn identical_inputs_give_no_changes() {
    let s = [5, 1, 4, 1, 5];
    assert!(diff_diff(&s, &s).is_empty());
    assert!(lcs_diff(&s, &s).is_empty());
    assert!(wu_diff(&s, &s).is_empty());
    let e: [i32; 0] = [];
    assert!(diff_diff(&e, &e).is_empty());
    assert!(lcs_diff(&e, &e).is_empty());
    assert!(wu_diff(&e, &e).is_empty());
}

#[test]
fn everything_removed_then_patched() {
    let a = [7, 8, 9];
    let b: [i32; 0] = [];
    for d in [diff_diff(&a, &b), lcs_diff(&a, &b), wu_diff(&a, &b)] {
        assert_eq!(patch(&a, &d), b.to_vec());
    }
}

#[test]
fn chain_of_states_each_backend() {
    let states: Vec<Vec<i32>> = vec![vec![], vec![3, 1], vec![3, 2, 1], vec![2], vec![2, 2, 2], vec![]];
    for i in 0..states.len() - 1 {
        let a = &states[i];
        let b = &states[i + 1];
        assert_eq!(&patch(a, &diff_diff(a, b)), b);
        assert_eq!(&patch(a, &lcs_diff(a, b)), b);
        assert_eq!(&patch(a, &wu_diff(a, b)), b);
    }
}

#[test]
fn insert_after_remove_becomes_update() {
    let mut cs: Vec<Change<i32>> = vec![Change::Insert((0, 9)), Change::Remove(3)];
    insert(3, &5, &mut cs);
    assert_eq!(cs, vec![Change::Insert((0, 9)), Change::Update((3, 5))]);
}

#[test]
fn insert_after_other_remove_is_appended() {
    let mut cs: Vec<Change<i32>> = vec![Change::Remove(2)];
    insert(3, &5, &mut cs);
    assert_eq!(cs, vec![Change::Remove(2), Change::Insert((3, 5))]);
    let mut empty: Vec<Change<i32>> = vec![];
    insert(0, &1, &mut empty);
    assert_eq!(empty, vec![Change::Insert((0, 1))]);
}

#[test]
fn remove_after_insert_becomes_update() {
    let mut cs: Vec<Change<&str>> = vec![Change::Insert((4, "x"))];
    remove(5, &mut cs);
    assert_eq!(cs, vec![Change::Update((4, "x"))]);
}

#[test]
fn remove_after_other_change_is_appended() {
    let mut cs: Vec<Change<&str>> = vec![Change::Insert((4, "x"))];
    remove(4, &mut cs);
    assert_eq!(cs, vec![Change::Insert((4, "x")), Change::Remove(4)]);
    let mut up: Vec<Change<&str>> = vec![Change::Update((1, "y"))];
    remove(2, &mut up);
    assert_eq!(up, vec![Change::Update((1, "y")), Change::Remove(2)]);
    let mut empty: Vec<Change<&str>> = vec![];
    remove(0, &mut empty);
    assert_eq!(empty, vec![Change::Remove(0)]);
}

#[test]
fn patch_applies_each_kind() {
    let a = vec!['a', 'b', 'c'];
    let cs = vec![Change::Remove(0), Change::Insert((2, 'd')), Change::Update((0, 'B'))];
    assert_eq!(patch(&a, &cs), vec!['B', 'c', 'd']);
    assert_eq!(patch(&a, &[]), a);
}

#[test]
fn edit_script_adapter_positions() {
    let (x, y, z, w) = (1, 2, 3, 4);
    let d = vec![
        DiffRecord::Right(&w),
        DiffRecord::Both(&x, &x),
        DiffRecord::Left(&y),
        DiffRecord::Right(&z),
        DiffRecord::Left(&y),
    ];
    assert_eq!(
        diff_changes(&d),
        vec![Change::Insert((0, 4)), Change::Update((2, 3)), Change::Remove(3)]
    );
}

#[test]
fn lcs_adapter_positions() {
    let d = vec![
        LcsRecord::Common,
        LcsRecord::Removed { old_index: Some(1) },
        LcsRecord::Added { new_index: Some(1), data: 'q' },
        LcsRecord::Added { new_index: Some(2), data: 'r' },
        LcsRecord::Removed { old_index: Some(2) },
    ];
    assert_eq!(
        lcs_changes(&d),
        vec![Change::Update((1, 'q')), Change::Update((2, 'r'))]
    );
    assert_eq!(patch(&['p', 'x', 'y'], &lcs_changes(&d)), vec!['p', 'q', 'r']);
}

#[test]
fn wu_adapter_reads_target() {
    let b = ["n0", "n1"];
    let d = vec![
        WuRecord::Removed { old_index: Some(0) },
        WuRecord::Added { new_index: Some(0) },
        WuRecord::Common,
        WuRecord::Added { new_index: Some(1) },
    ];
    assert_eq!(
        wu_changes(&d, &b),
        vec![Change::Update((0, "n0")), Change::Insert((1, "n1"))]
    );
}

fn all_sequences(max_len: usize, alphabet: u8) -> Vec<Vec<u8>> {
    let mut out: Vec<Vec<u8>> = vec![vec![]];
    let mut last: Vec<Vec<u8>> = vec![vec![]];
    for _ in 0..max_len {
        let mut next = vec![];
        for s in &last {
            for c in 0..alphabet {
                let mut t = s.clone();
                t.push(c);
                next.push(t);
            }
        }
        out.extend(next.iter().cloned());
        last = next;
    }
    out
}

#[test]
fn round_trip_every_small_pair() {
    let seqs = all_sequences(4, 3);
    for a in &seqs {
        for b in &seqs {
            assert_eq!(&patch(a, &diff_diff(a, b)), b, "diff {:?} {:?}", a, b);
            assert_eq!(&patch(a, &lcs_diff(a, b)), b, "lcs {:?} {:?}", a, b);
            assert_eq!(&patch(a, &wu_diff(a, b)), b, "wu {:?} {:?}", a, b);
        }
    }
}

#[test]
fn two_insertions_before_a_removal() {
    let d = vec![
        LcsRecord::Added { new_index: Some(0), data: 'x' },
        LcsRecord::Added { new_index: Some(1), data: 'y' },
        LcsRecord::Removed { old_index: Some(0) },
    ];
    let cs = lcs_changes(&d);
    assert_eq!(cs, vec![Change::Insert((0, 'x')), Change::Update((1, 'y'))]);
    assert_eq!(patch(&['a'], &cs), vec!['x', 'y']);
}

#[test]
fn change_clone_keeps_value() {
    let c = Change::Update((3, String::from("v")));
    assert_eq!(c.clone(), c);
    assert_eq!(Change::<u8>::Remove(1).clone(), Change::Remove(1));
}
