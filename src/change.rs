use std::fmt::Debug;
use vstd::prelude::*;

verus! {

/// One edit of a working sequence; positions refer to the sequence as the
/// earlier changes of the same list have left it.
#[derive(Debug, PartialEq)]
pub enum Change<T: PartialEq + Clone + Debug> {
    Remove(usize),
    Insert((usize, T)),
    Update((usize, T)),
}

impl<T: PartialEq + Clone + Debug> Clone for Change<T> {
    fn clone(&self) -> (r: Self)
        ensures
            change_cloned(*self, r),
    {
        match self {
            Change::Remove(n) => Change::Remove(*n),
            Change::Insert((n, x)) => Change::Insert((*n, x.clone())),
            Change::Update((n, x)) => Change::Update((*n, x.clone())),
        }
    }
}

/// The working sequence after one change.
pub open spec fn apply_change<T: PartialEq + Clone + Debug>(w: Seq<T>, c: Change<T>) -> Seq<T> {
    match c {
        Change::Remove(n) => w.remove(n as int),
        Change::Insert((n, x)) => w.insert(n as int, x),
        Change::Update((n, x)) => w.remove(n as int).insert(n as int, x),
    }
}

/// The position of a change lies within the working sequence.
pub open spec fn change_fits<T: PartialEq + Clone + Debug>(w: Seq<T>, c: Change<T>) -> bool {
    match c {
        Change::Remove(n) => n < w.len(),
        Change::Insert((n, _)) => n <= w.len(),
        Change::Update((n, _)) => n < w.len(),
    }
}

/// The sequence obtained by applying the changes to `s` in order.
pub open spec fn apply<T: PartialEq + Clone + Debug>(s: Seq<T>, cs: Seq<Change<T>>) -> Seq<T>
    decreases cs.len(),
{
    if cs.len() == 0 {
        s
    } else {
        apply_change(apply(s, cs.drop_last()), cs.last())
    }
}

/// Every change of the list fits the working sequence it is applied to.
pub open spec fn applicable<T: PartialEq + Clone + Debug>(s: Seq<T>, cs: Seq<Change<T>>) -> bool
    decreases cs.len(),
{
    cs.len() == 0 || (applicable(s, cs.drop_last()) && change_fits(apply(s, cs.drop_last()), cs.last()))
}

/// `r` holds, position by position, a clone of what `m` holds.
pub open spec fn clones_seq<T: Clone>(m: Seq<T>, r: Seq<T>) -> bool {
    &&& m.len() == r.len()
    &&& forall|i: int| 0 <= i < m.len() ==> cloned(#[trigger] m[i], r[i])
}

/// Two changes of the same kind and position whose items are clones.
pub open spec fn change_cloned<T: PartialEq + Clone + Debug>(c: Change<T>, d: Change<T>) -> bool {
    match (c, d) {
        (Change::Remove(n), Change::Remove(m)) => n == m,
        (Change::Insert((n, x)), Change::Insert((m, y))) => n == m && cloned(x, y),
        (Change::Update((n, x)), Change::Update((m, y))) => n == m && cloned(x, y),
        _ => false,
    }
}

/// `r` is `m` with each item replaced by a clone of it.
pub open spec fn changes_cloned<T: PartialEq + Clone + Debug>(
    m: Seq<Change<T>>,
    r: Seq<Change<T>>,
) -> bool {
    &&& m.len() == r.len()
    &&& forall|i: int| 0 <= i < m.len() ==> change_cloned(#[trigger] m[i], r[i])
}

proof fn lemma_apply_step<T: PartialEq + Clone + Debug>(s: Seq<T>, cs: Seq<Change<T>>, k: int)
    requires
        0 <= k < cs.len(),
    ensures
        apply(s, cs.take(k + 1)) == apply_change(apply(s, cs.take(k)), cs[k]),
        applicable(s, cs.take(k + 1)) == (applicable(s, cs.take(k)) && change_fits(
            apply(s, cs.take(k)),
            cs[k],
        )),
{
    assert(cs.take(k + 1).drop_last() =~= cs.take(k));
}

proof fn lemma_applicable_prefix<T: PartialEq + Clone + Debug>(
    s: Seq<T>,
    cs: Seq<Change<T>>,
    j: int,
)
    requires
        applicable(s, cs),
        0 <= j <= cs.len(),
    ensures
        applicable(s, cs.take(j)),
    decreases cs.len() - j,
{
    if j == cs.len() {
        assert(cs.take(j) =~= cs);
    } else {
        lemma_applicable_prefix(s, cs, j + 1);
        assert(cs.take(j + 1).drop_last() =~= cs.take(j));
    }
}

proof fn lemma_clones_remove<T: Clone>(m: Seq<T>, r: Seq<T>, i: int)
    requires
        clones_seq(m, r),
        0 <= i < m.len(),
    ensures
        clones_seq(m.remove(i), r.remove(i)),
{
    assert forall|j: int| 0 <= j < m.len() - 1 implies cloned(#[trigger] m.remove(i)[j], r.remove(i)[j]) by {
        if j < i {
            assert(cloned(m[j], r[j]));
        } else {
            assert(cloned(m[j + 1], r[j + 1]));
        }
    }
}

proof fn lemma_clones_insert<T: Clone>(m: Seq<T>, r: Seq<T>, i: int, x: T, y: T)
    requires
        clones_seq(m, r),
        0 <= i <= m.len(),
        cloned(x, y),
    ensures
        clones_seq(m.insert(i, x), r.insert(i, y)),
{
    assert forall|j: int| 0 <= j < m.len() + 1 implies cloned(#[trigger] m.insert(i, x)[j], r.insert(i, y)[j]) by {
        if j < i {
            assert(cloned(m[j], r[j]));
        } else if j > i {
            assert(cloned(m[j - 1], r[j - 1]));
        }
    }
}

/// Reproduce the target from `a` and the list of changes: each change is
/// applied in order to a working copy of `a`.
pub fn patch<T: PartialEq + Clone + Debug>(a: &[T], changes: &[Change<T>]) -> (r: Vec<T>)
    requires
        applicable(a@, changes@),
    ensures
        clones_seq(apply(a@, changes@), r@),
{
    let mut w: Vec<T> = Vec::new();
    let mut i: usize = 0;
    while i < a.len()
        invariant
            i <= a.len(),
            clones_seq(a@.take(i as int), w@),
        decreases a.len() - i,
    {
        let x = a[i].clone();
        w.push(x);
        i = i + 1;
        assert(a@.take(i as int)[i - 1] == a@[i - 1]);
    }
    assert(a@.take(a.len() as int) =~= a@);
    let mut k: usize = 0;
    while k < changes.len()
        invariant
            k <= changes.len(),
            applicable(a@, changes@),
            clones_seq(apply(a@, changes@.take(k as int)), w@),
        decreases changes.len() - k,
    {
        proof {
            lemma_applicable_prefix(a@, changes@, k as int + 1);
            lemma_apply_step(a@, changes@, k as int);
        }
        let ghost m = apply(a@, changes@.take(k as int));
        match &changes[k] {
            Change::Remove(n) => {
                proof {
                    lemma_clones_remove(m, w@, *n as int);
                }
                w.remove(*n);
            },
            Change::Insert((n, item)) => {
                let x = item.clone();
                proof {
                    lemma_clones_insert(m, w@, *n as int, *item, x);
                }
                w.insert(*n, x);
            },
            Change::Update((n, item)) => {
                proof {
                    lemma_clones_remove(m, w@, *n as int);
                }
                w.remove(*n);
                let x = item.clone();
                proof {
                    lemma_clones_insert(m.remove(*n as int), w@, *n as int, *item, x);
                }
                w.insert(*n, x);
            },
        }
        k = k + 1;
    }
    assert(changes@.take(changes.len() as int) =~= changes@);
    w
}

} // verus!
