use std::fmt::Debug;

use slice_diff_patch::{Change, diff_diff, lcs_diff, patch, wu_diff};

fn display<T: PartialEq + Clone + Debug>(a: &[T], b: &[T], d: &[Change<T>]) {
    println!("a = {:?}", a);
    println!("b = {:?}", b);
    for i in d {
        println!("i = {:?}", i);
    }
}

fn test_states<T: PartialEq + Clone + Debug>(
    states: &[&[T]],
    diff: &dyn Fn(&[T], &[T]) -> Vec<Change<T>>,
) {
    for i in 0..states.len() - 1 {
        let a = &states[i];
        let b = &states[i + 1];
        let d = diff(&a, &b);
        display(&a, &b, &d);
        let c = patch(&a, &d);
        assert_eq!(&c, b);
    }
}

#[test]
fn diff_int() {
    test_states(
        &[
            &[],
            &[2],
            &[2, 6],
            &[2, 4, 6],
            &[2, 4, 6, 8],
            &[1, 2, 4, 6, 8],
            &[1, 2, 3, 5, 8],
            &[1, 2, 3, 5, 8],
            &[2, 3, 5, 8],
            &[2, 5, 8],
            &[2, 5],
            &[],
        ],
        &diff_diff,
    );
}

#[test]
fn diff_str() {
    test_states(
        &[
            &[],
            &["alpha"],
            &["alpha", "delta"],
            &["alpha", "bravo", "delta"],
            &["alpha", "bravo", "charlie", "delta"],
            &["pre-alpha", "alpha", "pre-bravo", "pre-charlie", "delta"],
            &["pre-alpha", "alpha", "pre-bravo", "pre-charlie"],
            &["pre-alpha", "pre-bravo", "pre-charlie"],
            &["pre-bravo", "pre-charlie"],
            &["pre-bravo"],
            &[],
        ],
        &diff_diff,
    );
}

#[test]
fn lcs_int() {
    test_states(
        &[
            &[],
            &[2],
            &[2, 6],
            &[2, 4, 6],
            &[2, 4, 6, 8],
            &[1, 2, 4, 6, 8],
            &[1, 2, 3, 5, 8],
            &[1, 2, 3, 5, 8],
            &[2, 3, 5, 8],
            &[2, 5, 8],
            &[2, 5],
            &[],
        ],
        &lcs_diff,
    );
}

#[test]
fn lcs_str() {
    test_states(
        &[
            &[],
            &["alpha"],
            &["alpha", "delta"],
            &["alpha", "bravo", "delta"],
            &["alpha", "bravo", "charlie", "delta"],
            &["pre-alpha", "alpha", "pre-bravo", "pre-charlie", "delta"],
            &["pre-alpha", "alpha", "pre-bravo", "pre-charlie"],
            &["pre-alpha", "pre-bravo", "pre-charlie"],
            &["pre-bravo", "pre-charlie"],
            &["pre-bravo"],
            &[],
        ],
        &lcs_diff,
    );
}

#[test]
fn wu_int() {
    test_states(
        &[
            &[],
            &[2],
            &[2, 6],
            &[2, 4, 6],
            &[2, 4, 6, 8],
            &[1, 2, 4, 6, 8],
            &[1, 2, 3, 5, 8],
            &[1, 2, 3, 5, 8],
            &[2, 3, 5, 8],
            &[2, 5, 8],
            &[2, 5],
            &[],
        ],
        &wu_diff,
    );
}

#[test]
fn wu_str() {
    test_states(
        &[
            &[],
            &["alpha"],
            &["alpha", "delta"],
            &["alpha", "bravo", "delta"],
            &["alpha", "bravo", "charlie", "delta"],
            &["pre-alpha", "alpha", "pre-bravo", "pre-charlie", "delta"],
            &["pre-alpha", "alpha", "pre-bravo", "pre-charlie"],
            &["pre-alpha", "pre-bravo", "pre-charlie"],
            &["pre-bravo", "pre-charlie"],
            &["pre-bravo"],
            &[],
        ],
        &wu_diff,
    );
}

fn update<T: PartialEq + Clone + Debug>(
    a: &[T],
    b: &[T],
    changes: Vec<Change<T>>,
    diff: &dyn Fn(&[T], &[T]) -> Vec<Change<T>>,
) {
    assert_eq!(diff(&a, &b), changes);
}

#[test]
fn diff_update() {
    update(&[1], &[2], vec![Change::Update((0, 2))], &diff_diff);
    update(&[1, 2], &[1, 3], vec![Change::Update((1, 3))], &diff_diff);
    update(&[1, 2, 3], &[1, 2, 4], vec![Change::Update((2, 4))], &diff_diff);
    update(&["alpha"], &["bravo"], vec![Change::Update((0, "bravo"))], &diff_diff);
    update(
        &["alpha", "bravo"],
        &["alpha", "charlie"],
        vec![Change::Update((1, "charlie"))],
        &diff_diff,
    );
    update(
        &["alpha", "bravo", "charlie"],
        &["alpha", "bravo", "delta"],
        vec![Change::Update((2, "delta"))],
        &diff_diff,
    );
}

#[test]
fn lcs_update() {
    update(&[1], &[2], vec![Change::Update((0, 2))], &lcs_diff);
    update(&[1, 2], &[1, 3], vec![Change::Update((1, 3))], &lcs_diff);
    update(&[1, 2, 3], &[1, 2, 4], vec![Change::Update((2, 4))], &lcs_diff);
    update(&["alpha"], &["bravo"], vec![Change::Update((0, "bravo"))], &lcs_diff);
    update(
        &["alpha", "bravo"],
        &["alpha", "charlie"],
        vec![Change::Update((1, "charlie"))],
        &lcs_diff,
    );
    update(
        &["alpha", "bravo", "charlie"],
        &["alpha", "bravo", "delta"],
        vec![Change::Update((2, "delta"))],
        &lcs_diff,
    );
}

#[test]
fn wu_update() {
    update(&[1], &[2], vec![Change::Update((0, 2))], &wu_diff);
    update(&[1, 2], &[1, 3], vec![Change::Update((1, 3))], &wu_diff);
    update(&[1, 2, 3], &[1, 2, 4], vec![Change::Update((2, 4))], &wu_diff);
    update(&["alpha"], &["bravo"], vec![Change::Update((0, "bravo"))], &wu_diff);
    update(
        &["alpha", "bravo"],
        &["alpha", "charlie"],
        vec![Change::Update((1, "charlie"))],
        &wu_diff,
    );
    update(
        &["alpha", "bravo", "charlie"],
        &["alpha", "bravo", "delta"],
        vec![Change::Update((2, "delta"))],
        &wu_diff,
    );
}
