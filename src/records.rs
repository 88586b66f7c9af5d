use std::fmt::Debug;
use vstd::prelude::*;

verus! {

/// One position of an edit script: an element of the source only, a matched
/// pair of elements, or an element of the target only.
#[derive(Debug)]
pub enum DiffRecord<T> {
    Left(T),
    Both(T, T),
    Right(T),
}

/// One record of an LCS alignment; an addition carries its element.
#[derive(Debug)]
pub enum LcsRecord<T> {
    Removed { old_index: Option<usize> },
    Common,
    Added { new_index: Option<usize>, data: T },
}

/// One record of an O(NP) alignment; an addition carries its target index only.
#[derive(Debug)]
pub enum WuRecord {
    Removed { old_index: Option<usize> },
    Common,
    Added { new_index: Option<usize> },
}

// ---- edit scripts ----

/// Number of records that consume a source element.
pub open spec fn diff_old_pos<T>(d: Seq<DiffRecord<T>>) -> nat
    decreases d.len(),
{
    if d.len() == 0 {
        0
    } else {
        diff_old_pos(d.drop_last()) + if d.last() is Right { 0nat } else { 1nat }
    }
}

/// Number of records that consume a target element.
pub open spec fn diff_new_pos<T>(d: Seq<DiffRecord<T>>) -> nat
    decreases d.len(),
{
    if d.len() == 0 {
        0
    } else {
        diff_new_pos(d.drop_last()) + if d.last() is Left { 0nat } else { 1nat }
    }
}

/// Number of source-only records.
pub open spec fn diff_removed<T>(d: Seq<DiffRecord<T>>) -> nat
    decreases d.len(),
{
    if d.len() == 0 {
        0
    } else {
        diff_removed(d.drop_last()) + if d.last() is Left { 1nat } else { 0nat }
    }
}

/// Each record refers to the next unconsumed elements of `a` and `b`.
pub open spec fn diff_walks<T>(d: Seq<DiffRecord<&T>>, a: Seq<T>, b: Seq<T>) -> bool
    decreases d.len(),
{
    if d.len() == 0 {
        true
    } else {
        let p = d.drop_last();
        let o = diff_old_pos(p) as int;
        let n = diff_new_pos(p) as int;
        &&& diff_walks(p, a, b)
        &&& match d.last() {
            DiffRecord::Left(l) => o < a.len() && *l == a[o],
            DiffRecord::Both(l, r) => o < a.len() && n < b.len() && *l == a[o] && *r == b[n],
            DiffRecord::Right(r) => n < b.len() && *r == b[n],
        }
    }
}

/// `d` walks `a` and `b` to their ends.
pub open spec fn diff_spans<T>(d: Seq<DiffRecord<&T>>, a: Seq<T>, b: Seq<T>) -> bool {
    &&& diff_walks(d, a, b)
    &&& diff_old_pos(d) == a.len()
    &&& diff_new_pos(d) == b.len()
}

/// `d` is an edit script from `a` to `b`: it walks both sequences to their
/// ends and pairs only equal elements.
pub open spec fn diff_aligns<T>(d: Seq<DiffRecord<&T>>, a: Seq<T>, b: Seq<T>) -> bool {
    &&& diff_spans(d, a, b)
    &&& forall|i: int| 0 <= i < d.len() && (#[trigger] d[i]) is Both ==> *d[i]->Both_0 == *d[i]->Both_1
}

// ---- LCS alignments ----

pub open spec fn lcs_removed<T>(d: Seq<LcsRecord<T>>) -> nat
    decreases d.len(),
{
    if d.len() == 0 {
        0
    } else {
        lcs_removed(d.drop_last()) + if d.last() is Removed { 1nat } else { 0nat }
    }
}

pub open spec fn lcs_added<T>(d: Seq<LcsRecord<T>>) -> nat
    decreases d.len(),
{
    if d.len() == 0 {
        0
    } else {
        lcs_added(d.drop_last()) + if d.last() is Added { 1nat } else { 0nat }
    }
}

pub open spec fn lcs_common<T>(d: Seq<LcsRecord<T>>) -> nat
    decreases d.len(),
{
    if d.len() == 0 {
        0
    } else {
        lcs_common(d.drop_last()) + if d.last() is Common { 1nat } else { 0nat }
    }
}

/// Every index that the adapter reads is present, and every working
/// position that it computes fits a `usize`.
pub open spec fn lcs_indexed<T>(d: Seq<LcsRecord<T>>) -> bool {
    forall|i: int| 0 <= i < d.len() ==> match #[trigger] d[i] {
        LcsRecord::Removed { old_index } => old_index is Some && 0 <= old_index->0
            + lcs_added(d.take(i)) - lcs_removed(d.take(i)) <= usize::MAX,
        LcsRecord::Added { new_index, .. } => new_index is Some,
        LcsRecord::Common => true,
    }
}

/// Each index names the next unconsumed element of `a` or `b`, and each
/// addition carries a clone of its target element.
pub open spec fn lcs_walks<T: Clone>(d: Seq<LcsRecord<T>>, a: Seq<T>, b: Seq<T>) -> bool
    decreases d.len(),
{
    if d.len() == 0 {
        true
    } else {
        let p = d.drop_last();
        let o = lcs_removed(p) + lcs_common(p);
        let n = lcs_added(p) + lcs_common(p);
        &&& lcs_walks(p, a, b)
        &&& match d.last() {
            LcsRecord::Removed { old_index } => o < a.len() && old_index == Some(o as usize),
            LcsRecord::Added { new_index, data } => n < b.len() && new_index == Some(n as usize)
                && cloned(b[n as int], data),
            LcsRecord::Common => o < a.len() && n < b.len(),
        }
    }
}

/// `d` walks `a` and `b` to their ends.
pub open spec fn lcs_spans<T: Clone>(d: Seq<LcsRecord<T>>, a: Seq<T>, b: Seq<T>) -> bool {
    &&& lcs_walks(d, a, b)
    &&& lcs_removed(d) + lcs_common(d) == a.len()
    &&& lcs_added(d) + lcs_common(d) == b.len()
}

/// `d` is an alignment of `a` with `b`: it walks both to their ends, each
/// addition carries its target element and each common record pairs equal
/// elements.
pub open spec fn lcs_aligns<T: Clone>(d: Seq<LcsRecord<T>>, a: Seq<T>, b: Seq<T>) -> bool {
    &&& lcs_spans(d, a, b)
    &&& lcs_exact(d, a, b)
}

/// The record at `i` carries its target element, or pairs equal elements.
pub open spec fn lcs_record_exact<T>(d: Seq<LcsRecord<T>>, i: int, a: Seq<T>, b: Seq<T>) -> bool {
    let p = d.take(i);
    match d[i] {
        LcsRecord::Added { data, .. } => data == b[(lcs_added(p) + lcs_common(p)) as int],
        LcsRecord::Common => a[(lcs_removed(p) + lcs_common(p)) as int] == b[(lcs_added(p)
            + lcs_common(p)) as int],
        _ => true,
    }
}

pub open spec fn lcs_exact<T>(d: Seq<LcsRecord<T>>, a: Seq<T>, b: Seq<T>) -> bool {
    forall|i: int| 0 <= i < d.len() ==> #[trigger] lcs_record_exact(d, i, a, b)
}

// ---- O(NP) alignments ----

pub open spec fn wu_removed(d: Seq<WuRecord>) -> nat
    decreases d.len(),
{
    if d.len() == 0 {
        0
    } else {
        wu_removed(d.drop_last()) + if d.last() is Removed { 1nat } else { 0nat }
    }
}

pub open spec fn wu_added(d: Seq<WuRecord>) -> nat
    decreases d.len(),
{
    if d.len() == 0 {
        0
    } else {
        wu_added(d.drop_last()) + if d.last() is Added { 1nat } else { 0nat }
    }
}

pub open spec fn wu_common(d: Seq<WuRecord>) -> nat
    decreases d.len(),
{
    if d.len() == 0 {
        0
    } else {
        wu_common(d.drop_last()) + if d.last() is Common { 1nat } else { 0nat }
    }
}

/// Every index that the adapter reads is present, each addition names an
/// element of a target of length `b_len`, and every working position that
/// it computes fits a `usize`.
pub open spec fn wu_indexed(d: Seq<WuRecord>, b_len: nat) -> bool {
    forall|i: int| 0 <= i < d.len() ==> match #[trigger] d[i] {
        WuRecord::Removed { old_index } => old_index is Some && 0 <= old_index->0 + wu_added(
            d.take(i),
        ) - wu_removed(d.take(i)) <= usize::MAX,
        WuRecord::Added { new_index } => new_index is Some && new_index->0 < b_len,
        WuRecord::Common => true,
    }
}

/// Each index names the next unconsumed element of a source of length
/// `a_len` or a target of length `b_len`.
pub open spec fn wu_walks(d: Seq<WuRecord>, a_len: nat, b_len: nat) -> bool
    decreases d.len(),
{
    if d.len() == 0 {
        true
    } else {
        let p = d.drop_last();
        let o = wu_removed(p) + wu_common(p);
        let n = wu_added(p) + wu_common(p);
        &&& wu_walks(p, a_len, b_len)
        &&& match d.last() {
            WuRecord::Removed { old_index } => o < a_len && old_index == Some(o as usize),
            WuRecord::Added { new_index } => n < b_len && new_index == Some(n as usize),
            WuRecord::Common => o < a_len && n < b_len,
        }
    }
}

/// `d` walks a source of length `a_len` and a target of length `b_len` to
/// their ends.
pub open spec fn wu_spans(d: Seq<WuRecord>, a_len: nat, b_len: nat) -> bool {
    &&& wu_walks(d, a_len, b_len)
    &&& wu_removed(d) + wu_common(d) == a_len
    &&& wu_added(d) + wu_common(d) == b_len
}

/// `d` is an alignment of `a` with `b`: it walks both to their ends and each
/// common record pairs equal elements.
pub open spec fn wu_aligns<T>(d: Seq<WuRecord>, a: Seq<T>, b: Seq<T>) -> bool {
    &&& wu_spans(d, a.len(), b.len())
    &&& wu_exact(d, a, b)
}

/// The record at `i`, if common, pairs equal elements.
pub open spec fn wu_record_exact<T>(d: Seq<WuRecord>, i: int, a: Seq<T>, b: Seq<T>) -> bool {
    let p = d.take(i);
    d[i] is Common ==> a[(wu_removed(p) + wu_common(p)) as int] == b[(wu_added(p) + wu_common(
        p,
    )) as int]
}

pub open spec fn wu_exact<T>(d: Seq<WuRecord>, a: Seq<T>, b: Seq<T>) -> bool {
    forall|i: int| 0 <= i < d.len() ==> #[trigger] wu_record_exact(d, i, a, b)
}

/// A walking LCS alignment meets the adapter's precondition.
pub(crate) proof fn lemma_lcs_indexed<T: Clone>(d: Seq<LcsRecord<T>>, a: Seq<T>, b: Seq<T>)
    requires
        lcs_walks(d, a, b),
        a.len() <= usize::MAX,
        b.len() <= usize::MAX,
    ensures
        lcs_indexed(d),
        lcs_removed(d) + lcs_common(d) <= a.len(),
        lcs_added(d) + lcs_common(d) <= b.len(),
    decreases d.len(),
{
    if d.len() > 0 {
        let p = d.drop_last();
        let k = p.len() as int;
        lemma_lcs_indexed(p, a, b);
        assert(d.take(k) =~= p);
        assert forall|i: int| 0 <= i < d.len() implies match #[trigger] d[i] {
            LcsRecord::Removed { old_index } => old_index is Some && 0 <= old_index->0
                + lcs_added(d.take(i)) - lcs_removed(d.take(i)) <= usize::MAX,
            LcsRecord::Added { new_index, .. } => new_index is Some,
            LcsRecord::Common => true,
        } by {
            if i < k {
                assert(p.take(i) =~= d.take(i));
                assert(p[i] == d[i]);
            }
        }
    }
}

/// A walking O(NP) alignment meets the adapter's precondition.
pub(crate) proof fn lemma_wu_indexed(d: Seq<WuRecord>, a_len: nat, b_len: nat)
    requires
        wu_walks(d, a_len, b_len),
        a_len <= usize::MAX,
        b_len <= usize::MAX,
    ensures
        wu_indexed(d, b_len),
        wu_removed(d) + wu_common(d) <= a_len,
        wu_added(d) + wu_common(d) <= b_len,
    decreases d.len(),
{
    if d.len() > 0 {
        let p = d.drop_last();
        let k = p.len() as int;
        lemma_wu_indexed(p, a_len, b_len);
        assert(d.take(k) =~= p);
        assert forall|i: int| 0 <= i < d.len() implies match #[trigger] d[i] {
            WuRecord::Removed { old_index } => old_index is Some && 0 <= old_index->0 + wu_added(
                d.take(i),
            ) - wu_removed(d.take(i)) <= usize::MAX,
            WuRecord::Added { new_index } => new_index is Some && new_index->0 < b_len,
            WuRecord::Common => true,
        } by {
            if i < k {
                assert(p.take(i) =~= d.take(i));
                assert(p[i] == d[i]);
            }
        }
    }
}

} // verus!
