use std::fmt::Debug;
use vstd::prelude::*;

use crate::change::{Change, changes_cloned};
use crate::fuse::{
    fuse_insert, fuse_remove, insert, lemma_cloned_fuse_insert, lemma_cloned_fuse_remove, remove,
};
use crate::records::{
    DiffRecord, LcsRecord, WuRecord, diff_removed, diff_spans, lcs_added, lcs_indexed, lcs_removed,
    lcs_spans, lemma_lcs_indexed, lemma_wu_indexed, wu_added, wu_indexed, wu_removed, wu_spans,
};

verus! {

/// The canonical changes of an edit script: the record at combined position
/// `i`, after `removed` source-only records, acts at working position
/// `i - removed`.
pub open spec fn diff_model<T: PartialEq + Clone + Debug>(d: Seq<DiffRecord<&T>>) -> Seq<Change<T>>
    decreases d.len(),
{
    if d.len() == 0 {
        Seq::empty()
    } else {
        let p = d.drop_last();
        let cs = diff_model(p);
        let n = (p.len() - diff_removed(p)) as usize;
        match d.last() {
            DiffRecord::Left(_) => fuse_remove(cs, n),
            DiffRecord::Right(x) => fuse_insert(cs, n, *x),
            DiffRecord::Both(_, _) => cs,
        }
    }
}

/// The canonical changes of an LCS alignment: a removal of source index `k`
/// acts at `k + added - removed`, an addition at its target index.
pub open spec fn lcs_model<T: PartialEq + Clone + Debug>(d: Seq<LcsRecord<T>>) -> Seq<Change<T>>
    decreases d.len(),
{
    if d.len() == 0 {
        Seq::empty()
    } else {
        let p = d.drop_last();
        let cs = lcs_model(p);
        match d.last() {
            LcsRecord::Removed { old_index: Some(k) } => fuse_remove(
                cs,
                (k + lcs_added(p) - lcs_removed(p)) as usize,
            ),
            LcsRecord::Added { new_index: Some(k), data } => fuse_insert(cs, k, data),
            _ => cs,
        }
    }
}

/// The canonical changes of an O(NP) alignment of some source with `b`:
/// as for an LCS alignment, with each added element read from `b`.
pub open spec fn wu_model<T: PartialEq + Clone + Debug>(d: Seq<WuRecord>, b: Seq<T>) -> Seq<
    Change<T>,
>
    decreases d.len(),
{
    if d.len() == 0 {
        Seq::empty()
    } else {
        let p = d.drop_last();
        let cs = wu_model(p, b);
        match d.last() {
            WuRecord::Removed { old_index: Some(k) } => fuse_remove(
                cs,
                (k + wu_added(p) - wu_removed(p)) as usize,
            ),
            WuRecord::Added { new_index: Some(k) } => fuse_insert(cs, k, b[k as int]),
            _ => cs,
        }
    }
}

/// Convert an edit script into canonical changes.
pub fn diff_changes<T: PartialEq + Clone + Debug>(d: &[DiffRecord<&T>]) -> (r: Vec<Change<T>>)
    ensures
        changes_cloned(diff_model(d@), r@),
{
    let mut changes: Vec<Change<T>> = Vec::new();
    let mut removed: usize = 0;
    let mut i: usize = 0;
    while i < d.len()
        invariant
            i <= d.len(),
            removed == diff_removed(d@.take(i as int)),
            removed <= i,
            changes_cloned(diff_model(d@.take(i as int)), changes@),
        decreases d.len() - i,
    {
        let ghost p = d@.take(i as int);
        assert(d@.take(i as int + 1).drop_last() =~= p);
        let n = i - removed;
        let ghost before = changes@;
        match &d[i] {
            DiffRecord::Left(_) => {
                remove(n, &mut changes);
                proof {
                    lemma_cloned_fuse_remove(diff_model(p), before, n);
                }
                removed = removed + 1;
            },
            DiffRecord::Right(r) => {
                insert(n, *r, &mut changes);
                proof {
                    lemma_cloned_fuse_insert(diff_model(p), before, changes@, n, **r);
                }
            },
            DiffRecord::Both(_, _) => {},
        }
        i = i + 1;
    }
    assert(d@.take(d.len() as int) =~= d@);
    changes
}

/// Convert an LCS alignment into canonical changes.
pub fn lcs_changes<T: PartialEq + Clone + Debug>(d: &[LcsRecord<T>]) -> (r: Vec<Change<T>>)
    requires
        lcs_indexed(d@),
    ensures
        changes_cloned(lcs_model(d@), r@),
{
    let mut changes: Vec<Change<T>> = Vec::new();
    let mut removed: usize = 0;
    let mut added: usize = 0;
    let mut i: usize = 0;
    while i < d.len()
        invariant
            i <= d.len(),
            lcs_indexed(d@),
            removed == lcs_removed(d@.take(i as int)),
            added == lcs_added(d@.take(i as int)),
            removed + added <= i,
            changes_cloned(lcs_model(d@.take(i as int)), changes@),
        decreases d.len() - i,
    {
        let ghost p = d@.take(i as int);
        assert(d@.take(i as int + 1).drop_last() =~= p);
        let ghost before = changes@;
        match &d[i] {
            LcsRecord::Removed { old_index } => {
                let k = old_index.unwrap();
                let n = if k >= removed {
                    (k - removed) + added
                } else {
                    added - (removed - k)
                };
                remove(n, &mut changes);
                proof {
                    lemma_cloned_fuse_remove(lcs_model(p), before, n);
                }
                removed = removed + 1;
            },
            LcsRecord::Added { new_index, data } => {
                let n = new_index.unwrap();
                insert(n, data, &mut changes);
                proof {
                    lemma_cloned_fuse_insert(lcs_model(p), before, changes@, n, *data);
                }
                added = added + 1;
            },
            LcsRecord::Common => {},
        }
        i = i + 1;
    }
    assert(d@.take(d.len() as int) =~= d@);
    changes
}

/// Convert an O(NP) alignment into canonical changes, cloning each added
/// element from `b`.
pub fn wu_changes<T: PartialEq + Clone + Debug>(d: &[WuRecord], b: &[T]) -> (r: Vec<Change<T>>)
    requires
        wu_indexed(d@, b@.len()),
    ensures
        changes_cloned(wu_model(d@, b@), r@),
{
    let mut changes: Vec<Change<T>> = Vec::new();
    let mut removed: usize = 0;
    let mut added: usize = 0;
    let mut i: usize = 0;
    while i < d.len()
        invariant
            i <= d.len(),
            wu_indexed(d@, b@.len()),
            removed == wu_removed(d@.take(i as int)),
            added == wu_added(d@.take(i as int)),
            removed + added <= i,
            changes_cloned(wu_model(d@.take(i as int), b@), changes@),
        decreases d.len() - i,
    {
        let ghost p = d@.take(i as int);
        assert(d@.take(i as int + 1).drop_last() =~= p);
        let ghost before = changes@;
        match &d[i] {
            WuRecord::Removed { old_index } => {
                let k = old_index.unwrap();
                let n = if k >= removed {
                    (k - removed) + added
                } else {
                    added - (removed - k)
                };
                remove(n, &mut changes);
                proof {
                    lemma_cloned_fuse_remove(wu_model(p, b@), before, n);
                }
                removed = removed + 1;
            },
            WuRecord::Added { new_index } => {
                let n = new_index.unwrap();
                insert(n, &b[n], &mut changes);
                proof {
                    lemma_cloned_fuse_insert(wu_model(p, b@), before, changes@, n, b@[n as int]);
                }
                added = added + 1;
            },
            WuRecord::Common => {},
        }
        i = i + 1;
    }
    assert(d@.take(d.len() as int) =~= d@);
    changes
}

/// Relies on diff::slice: an edit script that walks `a` and `b` to their
/// ends, each record referring to the elements it consumes.
#[verifier::external_body]
fn diff_script<'a, T: PartialEq>(a: &'a [T], b: &'a [T]) -> (r: Vec<DiffRecord<&'a T>>)
    ensures
        diff_spans(r@, a@, b@),
{
    diff::slice(a, b).into_iter().map(|x| match x {
        diff::Result::Left(l) => DiffRecord::Left(l),
        diff::Result::Both(l, r) => DiffRecord::Both(l, r),
        diff::Result::Right(r) => DiffRecord::Right(r),
    }).collect()
}

/// Relies on lcs_diff::diff: an alignment whose indices walk `a` and `b` to
/// their ends, each addition carrying a clone of its target element.
#[verifier::external_body]
fn lcs_script<T: PartialEq + Clone>(a: &[T], b: &[T]) -> (r: Vec<LcsRecord<T>>)
    ensures
        lcs_spans(r@, a@, b@),
{
    lcs_diff::diff(a, b).into_iter().map(|x| match x {
        lcs_diff::DiffResult::Removed(e) => LcsRecord::Removed { old_index: e.old_index },
        lcs_diff::DiffResult::Common(_) => LcsRecord::Common,
        lcs_diff::DiffResult::Added(e) => LcsRecord::Added { new_index: e.new_index, data: e.data },
    }).collect()
}

/// Relies on wu_diff::diff: an alignment whose indices walk `a` and `b` to
/// their ends.
#[verifier::external_body]
fn wu_script<T: PartialEq + Clone>(a: &[T], b: &[T]) -> (r: Vec<WuRecord>)
    ensures
        wu_spans(r@, a@.len(), b@.len()),
{
    wu_diff::diff(a, b).into_iter().map(|x| match x {
        wu_diff::DiffResult::Removed(e) => WuRecord::Removed { old_index: e.old_index },
        wu_diff::DiffResult::Common(_) => WuRecord::Common,
        wu_diff::DiffResult::Added(e) => WuRecord::Added { new_index: e.new_index },
    }).collect()
}

/// The canonical changes from `a` to `b`, through the edit script of the
/// `diff` algorithm.
pub fn diff_diff<T: PartialEq + Clone + Debug>(a: &[T], b: &[T]) -> (r: Vec<Change<T>>)
    ensures
        exists|d: Seq<DiffRecord<&T>>| diff_spans(d, a@, b@) && changes_cloned(diff_model(d), r@),
{
    let d = diff_script(a, b);
    diff_changes(d.as_slice())
}

/// The canonical changes from `a` to `b`, through an LCS alignment.
pub fn lcs_diff<T: PartialEq + Clone + Debug>(a: &[T], b: &[T]) -> (r: Vec<Change<T>>)
    ensures
        exists|d: Seq<LcsRecord<T>>| lcs_spans(d, a@, b@) && changes_cloned(lcs_model(d), r@),
{
    let d = lcs_script(a, b);
    proof {
        assert(a@.len() == a.len() && b@.len() == b.len());
        lemma_lcs_indexed(d@, a@, b@);
    }
    lcs_changes(d.as_slice())
}

/// The canonical changes from `a` to `b`, through an O(NP) alignment.
pub fn wu_diff<T: PartialEq + Clone + Debug>(a: &[T], b: &[T]) -> (r: Vec<Change<T>>)
    ensures
        exists|d: Seq<WuRecord>| wu_spans(d, a@.len(), b@.len()) && changes_cloned(wu_model(d, b@), r@),
{
    let d = wu_script(a, b);
    proof {
        assert(a@.len() == a.len() && b@.len() == b.len());
        lemma_wu_indexed(d@, a@.len(), b@.len());
    }
    wu_changes(d.as_slice(), b)
}

} // verus!
