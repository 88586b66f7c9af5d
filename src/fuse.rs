use std::fmt::Debug;
use vstd::prelude::*;

use crate::change::{Change, apply, applicable, change_cloned, changes_cloned};

verus! {

/// The list after recording an insertion of `x` at `n`: a trailing
/// `Remove(n)` becomes `Update(n, x)`, otherwise `Insert(n, x)` is appended.
pub open spec fn fuse_insert<T: PartialEq + Clone + Debug>(
    cs: Seq<Change<T>>,
    n: usize,
    x: T,
) -> Seq<Change<T>> {
    if cs.len() > 0 && cs.last() == Change::<T>::Remove(n) {
        cs.drop_last().push(Change::Update((n, x)))
    } else {
        cs.push(Change::Insert((n, x)))
    }
}

/// The list after recording a removal at `n`: a trailing `Insert(n - 1, x)`
/// becomes `Update(n - 1, x)`, otherwise `Remove(n)` is appended.
pub open spec fn fuse_remove<T: PartialEq + Clone + Debug>(
    cs: Seq<Change<T>>,
    n: usize,
) -> Seq<Change<T>> {
    if cs.len() > 0 && cs.last() is Insert && n == cs.last()->Insert_0.0 + 1 {
        cs.drop_last().push(Change::Update(cs.last()->Insert_0))
    } else {
        cs.push(Change::Remove(n))
    }
}

/// `r` is `m` but for its last item, which is a clone of that of `m`.
pub open spec fn last_cloned<T: PartialEq + Clone + Debug>(
    m: Seq<Change<T>>,
    r: Seq<Change<T>>,
) -> bool {
    &&& m.len() == r.len()
    &&& m.len() > 0
    &&& m.drop_last() == r.drop_last()
    &&& change_cloned(m.last(), r.last())
}

/// Record an insertion of `item` at `n`, fusing it with a trailing removal
/// at the same position into an update.
pub fn insert<T: PartialEq + Clone + Debug>(n: usize, item: &T, changes: &mut Vec<Change<T>>)
    ensures
        last_cloned(fuse_insert(old(changes)@, n, *item), final(changes)@),
{
    let ghost cs = changes@;
    if let Some(prev_change) = changes.pop() {
        match prev_change {
            Change::Remove(prev_n) => {
                if n == prev_n {
                    let x = item.clone();
                    changes.push(Change::Update((n, x)));
                    assert(changes@.drop_last() =~= fuse_insert(cs, n, *item).drop_last());
                    assert(change_cloned(fuse_insert(cs, n, *item).last(), changes@.last()));
                    return;
                }
                changes.push(Change::Remove(prev_n));
            },
            other => {
                changes.push(other);
            },
        }
        assert(changes@ =~= cs);
    }
    let x = item.clone();
    changes.push(Change::Insert((n, x)));
    assert(changes@.drop_last() =~= fuse_insert(cs, n, *item).drop_last());
    assert(change_cloned(fuse_insert(cs, n, *item).last(), changes@.last()));
}

/// Record a removal at `n`, fusing it with a trailing insertion at `n - 1`
/// into an update.
pub fn remove<T: PartialEq + Clone + Debug>(n: usize, changes: &mut Vec<Change<T>>)
    ensures
        final(changes)@ == fuse_remove(old(changes)@, n),
{
    let ghost cs = changes@;
    if let Some(prev_change) = changes.pop() {
        match prev_change {
            Change::Insert((prev_n, item)) => {
                if prev_n < n && n - prev_n == 1 {
                    changes.push(Change::Update((prev_n, item)));
                    assert(changes@ =~= fuse_remove(cs, n));
                    return;
                }
                changes.push(Change::Insert((prev_n, item)));
            },
            other => {
                changes.push(other);
            },
        }
        assert(changes@ =~= cs);
    }
    changes.push(Change::Remove(n));
}

/// Recording an insertion acts on the working sequence as the insertion.
pub proof fn lemma_fuse_insert<T: PartialEq + Clone + Debug>(
    s: Seq<T>,
    cs: Seq<Change<T>>,
    n: usize,
    x: T,
)
    requires
        applicable(s, cs),
        n <= apply(s, cs).len(),
    ensures
        applicable(s, fuse_insert(cs, n, x)),
        apply(s, fuse_insert(cs, n, x)) == apply(s, cs).insert(n as int, x),
{
    let r = fuse_insert(cs, n, x);
    assert(r.drop_last() =~= if cs.len() > 0 && cs.last() == Change::<T>::Remove(n) {
        cs.drop_last()
    } else {
        cs
    });
}

/// Recording a removal acts on the working sequence as the removal.
pub proof fn lemma_fuse_remove<T: PartialEq + Clone + Debug>(
    s: Seq<T>,
    cs: Seq<Change<T>>,
    n: usize,
)
    requires
        applicable(s, cs),
        n < apply(s, cs).len(),
    ensures
        applicable(s, fuse_remove(cs, n)),
        apply(s, fuse_remove(cs, n)) == apply(s, cs).remove(n as int),
{
    let r = fuse_remove(cs, n);
    if cs.len() > 0 && cs.last() is Insert && n == cs.last()->Insert_0.0 + 1 {
        let (p, x) = cs.last()->Insert_0;
        let w0 = apply(s, cs.drop_last());
        assert(r.drop_last() =~= cs.drop_last());
        assert(w0.remove(p as int).insert(p as int, x) =~= w0.insert(p as int, x).remove(n as int));
    } else {
        assert(r.drop_last() =~= cs);
    }
}

/// Recording the same removal keeps two lists clones of each other.
pub proof fn lemma_cloned_fuse_remove<T: PartialEq + Clone + Debug>(
    m: Seq<Change<T>>,
    c: Seq<Change<T>>,
    n: usize,
)
    requires
        changes_cloned(m, c),
    ensures
        changes_cloned(fuse_remove(m, n), fuse_remove(c, n)),
{
    if m.len() > 0 {
        assert(change_cloned(m[m.len() - 1], c[c.len() - 1]));
    }
    let m2 = fuse_remove(m, n);
    let c2 = fuse_remove(c, n);
    assert forall|i: int| 0 <= i < m2.len() implies change_cloned(#[trigger] m2[i], c2[i]) by {
        if i < m2.len() - 1 {
            assert(change_cloned(m[i], c[i]));
        }
    }
}

/// Recording the same insertion, with the item cloned, keeps two lists
/// clones of each other.
pub proof fn lemma_cloned_fuse_insert<T: PartialEq + Clone + Debug>(
    m: Seq<Change<T>>,
    c: Seq<Change<T>>,
    c2: Seq<Change<T>>,
    n: usize,
    x: T,
)
    requires
        changes_cloned(m, c),
        last_cloned(fuse_insert(c, n, x), c2),
    ensures
        changes_cloned(fuse_insert(m, n, x), c2),
{
    if m.len() > 0 {
        assert(change_cloned(m[m.len() - 1], c[c.len() - 1]));
    }
    let m2 = fuse_insert(m, n, x);
    let c1 = fuse_insert(c, n, x);
    assert(c1.last() == c2.last() || change_cloned(c1.last(), c2.last()));
    assert forall|i: int| 0 <= i < m2.len() implies change_cloned(#[trigger] m2[i], c2[i]) by {
        if i < m2.len() - 1 {
            assert(change_cloned(m[i], c[i]));
            assert(c1.drop_last()[i] == c2.drop_last()[i]);
        }
    }
}

} // verus!
