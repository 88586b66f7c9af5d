use std::fmt::Debug;
use vstd::prelude::*;

use crate::adapters::{diff_model, lcs_model, wu_model};
use crate::change::{Change, apply, applicable};
use crate::fuse::{fuse_insert, fuse_remove, lemma_fuse_insert, lemma_fuse_remove};
use crate::records::{
    DiffRecord, LcsRecord, WuRecord, diff_aligns, diff_new_pos, diff_old_pos, diff_removed,
    diff_walks, lcs_added, lcs_aligns, lcs_common, lcs_exact, lcs_indexed, lcs_record_exact,
    lcs_removed, lcs_walks, lemma_lcs_indexed, lemma_wu_indexed, wu_added, wu_aligns, wu_common,
    wu_exact, wu_indexed, wu_record_exact, wu_removed, wu_walks,
};

verus! {

proof fn lemma_diff_counts<T>(d: Seq<DiffRecord<T>>)
    ensures
        diff_new_pos(d) + diff_removed(d) == d.len(),
    decreases d.len(),
{
    if d.len() > 0 {
        lemma_diff_counts(d.drop_last());
    }
}

/// Replaying the changes of a walking edit script leaves the consumed part
/// of `b` followed by the unconsumed part of `a`.
proof fn lemma_diff_run<T: PartialEq + Clone + Debug>(d: Seq<DiffRecord<&T>>, a: Seq<T>, b: Seq<T>)
    requires
        diff_walks(d, a, b),
        forall|i: int| 0 <= i < d.len() && (#[trigger] d[i]) is Both ==> *d[i]->Both_0 == *d[i]->Both_1,
        b.len() <= usize::MAX,
    ensures
        diff_old_pos(d) <= a.len(),
        diff_new_pos(d) <= b.len(),
        applicable(a, diff_model(d)),
        apply(a, diff_model(d)) == b.take(diff_new_pos(d) as int) + a.skip(diff_old_pos(d) as int),
    decreases d.len(),
{
    if d.len() == 0 {
        assert(b.take(0) + a.skip(0) =~= a);
    } else {
        let p = d.drop_last();
        assert forall|i: int| 0 <= i < p.len() && (#[trigger] p[i]) is Both implies *p[i]->Both_0
            == *p[i]->Both_1 by {
            assert(p[i] == d[i]);
        }
        lemma_diff_run(p, a, b);
        lemma_diff_counts(p);
        let o = diff_old_pos(p) as int;
        let n = diff_new_pos(p) as int;
        let cs = diff_model(p);
        let w = apply(a, cs);
        assert(n == (p.len() - diff_removed(p)) as usize);
        match d.last() {
            DiffRecord::Left(_) => {
                lemma_fuse_remove(a, cs, n as usize);
                assert(w.remove(n) =~= b.take(n) + a.skip(o + 1));
            },
            DiffRecord::Right(x) => {
                lemma_fuse_insert(a, cs, n as usize, *x);
                assert(w.insert(n, *x) =~= b.take(n + 1) + a.skip(o));
            },
            DiffRecord::Both(l, r) => {
                assert(d[d.len() - 1] == d.last());
                assert(w =~= b.take(n + 1) + a.skip(o + 1));
            },
        }
    }
}

proof fn lemma_lcs_exact_prefix<T>(d: Seq<LcsRecord<T>>, a: Seq<T>, b: Seq<T>)
    requires
        d.len() > 0,
        lcs_exact(d, a, b),
    ensures
        lcs_exact(d.drop_last(), a, b),
        lcs_record_exact(d, d.len() - 1, a, b),
{
    let p = d.drop_last();
    assert forall|i: int| 0 <= i < p.len() implies #[trigger] lcs_record_exact(p, i, a, b) by {
        assert(lcs_record_exact(d, i, a, b));
        assert(p.take(i) =~= d.take(i));
    }
}

proof fn lemma_wu_exact_prefix<T>(d: Seq<WuRecord>, a: Seq<T>, b: Seq<T>)
    requires
        d.len() > 0,
        wu_exact(d, a, b),
    ensures
        wu_exact(d.drop_last(), a, b),
        wu_record_exact(d, d.len() - 1, a, b),
{
    let p = d.drop_last();
    assert forall|i: int| 0 <= i < p.len() implies #[trigger] wu_record_exact(p, i, a, b) by {
        assert(wu_record_exact(d, i, a, b));
        assert(p.take(i) =~= d.take(i));
    }
}

/// Replaying the changes of a walking LCS alignment leaves the consumed part
/// of `b` followed by the unconsumed part of `a`.
proof fn lemma_lcs_run<T: PartialEq + Clone + Debug>(d: Seq<LcsRecord<T>>, a: Seq<T>, b: Seq<T>)
    requires
        lcs_walks(d, a, b),
        lcs_exact(d, a, b),
        a.len() <= usize::MAX,
        b.len() <= usize::MAX,
    ensures
        applicable(a, lcs_model(d)),
        apply(a, lcs_model(d)) == b.take((lcs_added(d) + lcs_common(d)) as int) + a.skip(
            (lcs_removed(d) + lcs_common(d)) as int,
        ),
    decreases d.len(),
{
    if d.len() == 0 {
        assert(b.take(0) + a.skip(0) =~= a);
    } else {
        let p = d.drop_last();
        let k = p.len() as int;
        lemma_lcs_exact_prefix(d, a, b);
        lemma_lcs_run(p, a, b);
        lemma_lcs_indexed(p, a, b);
        assert(d.take(k) =~= p);
        assert(d[k] == d.last());
        let o = (lcs_removed(p) + lcs_common(p)) as int;
        let n = (lcs_added(p) + lcs_common(p)) as int;
        let cs = lcs_model(p);
        let w = apply(a, cs);
        match d.last() {
            LcsRecord::Removed { old_index } => {
                assert(lcs_model(d) == fuse_remove(cs, n as usize));
                lemma_fuse_remove(a, cs, n as usize);
                assert(w.remove(n) =~= b.take(n) + a.skip(o + 1));
            },
            LcsRecord::Added { new_index, data } => {
                lemma_fuse_insert(a, cs, n as usize, data);
                assert(w.insert(n, data) =~= b.take(n + 1) + a.skip(o));
            },
            LcsRecord::Common => {
                assert(w =~= b.take(n + 1) + a.skip(o + 1));
            },
        }
    }
}

/// Replaying the changes of a walking O(NP) alignment leaves the consumed
/// part of `b` followed by the unconsumed part of `a`.
proof fn lemma_wu_run<T: PartialEq + Clone + Debug>(d: Seq<WuRecord>, a: Seq<T>, b: Seq<T>)
    requires
        wu_walks(d, a.len(), b.len()),
        wu_exact(d, a, b),
        a.len() <= usize::MAX,
        b.len() <= usize::MAX,
    ensures
        applicable(a, wu_model(d, b)),
        apply(a, wu_model(d, b)) == b.take((wu_added(d) + wu_common(d)) as int) + a.skip(
            (wu_removed(d) + wu_common(d)) as int,
        ),
    decreases d.len(),
{
    if d.len() == 0 {
        assert(b.take(0) + a.skip(0) =~= a);
    } else {
        let p = d.drop_last();
        let k = p.len() as int;
        lemma_wu_exact_prefix(d, a, b);
        lemma_wu_run(p, a, b);
        lemma_wu_indexed(p, a.len(), b.len());
        assert(d.take(k) =~= p);
        assert(d[k] == d.last());
        let o = (wu_removed(p) + wu_common(p)) as int;
        let n = (wu_added(p) + wu_common(p)) as int;
        let cs = wu_model(p, b);
        let w = apply(a, cs);
        match d.last() {
            WuRecord::Removed { old_index } => {
                assert(wu_model(d, b) == fuse_remove(cs, n as usize));
                lemma_fuse_remove(a, cs, n as usize);
                assert(w.remove(n) =~= b.take(n) + a.skip(o + 1));
            },
            WuRecord::Added { new_index } => {
                lemma_fuse_insert(a, cs, n as usize, b[n]);
                assert(w.insert(n, b[n]) =~= b.take(n + 1) + a.skip(o));
            },
            WuRecord::Common => {
                assert(w =~= b.take(n + 1) + a.skip(o + 1));
            },
        }
    }
}

/// Round trip, edit scripts: the changes of an edit script from `a` to `b`
/// apply to `a` and turn it into `b`.
pub proof fn diff_round_trip<T: PartialEq + Clone + Debug>(
    d: Seq<DiffRecord<&T>>,
    a: Seq<T>,
    b: Seq<T>,
)
    requires
        diff_aligns(d, a, b),
        b.len() <= usize::MAX,
    ensures
        applicable(a, diff_model(d)),
        apply(a, diff_model(d)) == b,
{
    lemma_diff_run(d, a, b);
    assert(b.take(b.len() as int) + a.skip(a.len() as int) =~= b);
}

/// Round trip, LCS alignments: an alignment of `a` with `b` meets the
/// adapter's precondition, and its changes apply to `a` and turn it into `b`.
pub proof fn lcs_round_trip<T: PartialEq + Clone + Debug>(
    d: Seq<LcsRecord<T>>,
    a: Seq<T>,
    b: Seq<T>,
)
    requires
        lcs_aligns(d, a, b),
        a.len() <= usize::MAX,
        b.len() <= usize::MAX,
    ensures
        lcs_indexed(d),
        applicable(a, lcs_model(d)),
        apply(a, lcs_model(d)) == b,
{
    lemma_lcs_indexed(d, a, b);
    lemma_lcs_run(d, a, b);
    assert(b.take(b.len() as int) + a.skip(a.len() as int) =~= b);
}

/// Round trip, O(NP) alignments: an alignment of `a` with `b` meets the
/// adapter's precondition, and its changes apply to `a` and turn it into `b`.
pub proof fn wu_round_trip<T: PartialEq + Clone + Debug>(d: Seq<WuRecord>, a: Seq<T>, b: Seq<T>)
    requires
        wu_aligns(d, a, b),
        a.len() <= usize::MAX,
        b.len() <= usize::MAX,
    ensures
        wu_indexed(d, b.len()),
        applicable(a, wu_model(d, b)),
        apply(a, wu_model(d, b)) == b,
{
    lemma_wu_indexed(d, a.len(), b.len());
    lemma_wu_run(d, a, b);
    assert(b.take(b.len() as int) + a.skip(a.len() as int) =~= b);
}

/// Fusion: a removal at `n` followed by an insertion of `x` at `n` is
/// recorded as `Update(n, x)`, and so is an insertion of `x` at `n` followed
/// by a removal at `n + 1`.
pub proof fn fusion_gives_update<T: PartialEq + Clone + Debug>(
    cs: Seq<Change<T>>,
    n: usize,
    x: T,
)
    requires
        n < usize::MAX,
    ensures
        fuse_insert(cs.push(Change::Remove(n)), n, x) == cs.push(Change::Update((n, x))),
        fuse_remove(cs.push(Change::Insert((n, x))), (n + 1) as usize) == cs.push(
            Change::Update((n, x)),
        ),
{
    assert(cs.push(Change::<T>::Remove(n)).drop_last() =~= cs);
    assert(cs.push(Change::Insert((n, x))).drop_last() =~= cs);
}

/// No differences, edit scripts: a script of matched pairs only gives no
/// changes.
pub proof fn diff_all_common_is_empty<T: PartialEq + Clone + Debug>(d: Seq<DiffRecord<&T>>)
    requires
        forall|i: int| 0 <= i < d.len() ==> (#[trigger] d[i]) is Both,
    ensures
        diff_model(d) == Seq::<Change<T>>::empty(),
    decreases d.len(),
{
    if d.len() > 0 {
        let p = d.drop_last();
        assert forall|i: int| 0 <= i < p.len() implies (#[trigger] p[i]) is Both by {
            assert(p[i] == d[i]);
        }
        diff_all_common_is_empty(p);
        assert(d[d.len() - 1] is Both);
    }
}

/// No differences, LCS alignments: an alignment of common records only gives
/// no changes.
pub proof fn lcs_all_common_is_empty<T: PartialEq + Clone + Debug>(d: Seq<LcsRecord<T>>)
    requires
        forall|i: int| 0 <= i < d.len() ==> (#[trigger] d[i]) is Common,
    ensures
        lcs_model(d) == Seq::<Change<T>>::empty(),
    decreases d.len(),
{
    if d.len() > 0 {
        let p = d.drop_last();
        assert forall|i: int| 0 <= i < p.len() implies (#[trigger] p[i]) is Common by {
            assert(p[i] == d[i]);
        }
        lcs_all_common_is_empty(p);
        assert(d[d.len() - 1] is Common);
    }
}

/// No differences, O(NP) alignments: an alignment of common records only
/// gives no changes.
pub proof fn wu_all_common_is_empty<T: PartialEq + Clone + Debug>(d: Seq<WuRecord>, b: Seq<T>)
    requires
        forall|i: int| 0 <= i < d.len() ==> (#[trigger] d[i]) is Common,
    ensures
        wu_model(d, b) == Seq::<Change<T>>::empty(),
    decreases d.len(),
{
    if d.len() > 0 {
        let p = d.drop_last();
        assert forall|i: int| 0 <= i < p.len() implies (#[trigger] p[i]) is Common by {
            assert(p[i] == d[i]);
        }
        wu_all_common_is_empty(p, b);
        assert(d[d.len() - 1] is Common);
    }
}

/// The sequence reached from `s` by applying each list of changes in turn.
pub open spec fn replay<T: PartialEq + Clone + Debug>(s: Seq<T>, css: Seq<Seq<Change<T>>>) -> Seq<T>
    decreases css.len(),
{
    if css.len() == 0 {
        s
    } else {
        apply(replay(s, css.drop_last()), css.last())
    }
}

/// Chain: where each list of changes turns one state into the next, applying
/// the lists in turn from the first state passes through every later state.
pub proof fn chain_reaches_each_state<T: PartialEq + Clone + Debug>(
    states: Seq<Seq<T>>,
    css: Seq<Seq<Change<T>>>,
)
    requires
        states.len() == css.len() + 1,
        forall|i: int| 0 <= i < css.len() ==> apply(states[i], #[trigger] css[i]) == states[i + 1],
    ensures
        forall|k: int| 0 <= k < states.len() ==> replay(states[0], #[trigger] css.take(k))
            == states[k],
{
    assert forall|k: int| 0 <= k < states.len() implies replay(states[0], #[trigger] css.take(k))
        == states[k] by {
        lemma_replay_prefix(states, css, k);
    }
}

proof fn lemma_replay_prefix<T: PartialEq + Clone + Debug>(
    states: Seq<Seq<T>>,
    css: Seq<Seq<Change<T>>>,
    k: int,
)
    requires
        states.len() == css.len() + 1,
        forall|i: int| 0 <= i < css.len() ==> apply(states[i], #[trigger] css[i]) == states[i + 1],
        0 <= k < states.len(),
    ensures
        replay(states[0], css.take(k)) == states[k],
    decreases k,
{
    if k > 0 {
        lemma_replay_prefix(states, css, k - 1);
        assert(css.take(k).drop_last() =~= css.take(k - 1));
        assert(apply(states[k - 1], css[k - 1]) == states[k]);
    }
}

/// The changes of each alignment of a list.
pub open spec fn lcs_models<T: PartialEq + Clone + Debug>(ds: Seq<Seq<LcsRecord<T>>>) -> Seq<
    Seq<Change<T>>,
> {
    ds.map_values(|d: Seq<LcsRecord<T>>| lcs_model(d))
}

/// Chain, LCS alignments: where each alignment aligns one state with the
/// next, replaying their changes in turn from the first state passes through
/// every later state.
pub proof fn lcs_chain<T: PartialEq + Clone + Debug>(
    states: Seq<Seq<T>>,
    ds: Seq<Seq<LcsRecord<T>>>,
)
    requires
        states.len() == ds.len() + 1,
        forall|i: int| 0 <= i < states.len() ==> (#[trigger] states[i]).len() <= usize::MAX,
        forall|i: int| 0 <= i < ds.len() ==> lcs_aligns(#[trigger] ds[i], states[i], states[i + 1]),
    ensures
        forall|k: int| 0 <= k < states.len() ==> replay(states[0], #[trigger] lcs_models(ds).take(k))
            == states[k],
{
    let css = lcs_models(ds);
    assert forall|i: int| 0 <= i < css.len() implies apply(states[i], #[trigger] css[i])
        == states[i + 1] by {
        assert(lcs_aligns(ds[i], states[i], states[i + 1]));
        assert(states[i].len() <= usize::MAX && states[i + 1].len() <= usize::MAX);
        lcs_round_trip(ds[i], states[i], states[i + 1]);
    }
    chain_reaches_each_state(states, css);
}

/// The changes of each edit script of a list.
pub open spec fn diff_models<T: PartialEq + Clone + Debug>(ds: Seq<Seq<DiffRecord<&T>>>) -> Seq<
    Seq<Change<T>>,
> {
    ds.map_values(|d: Seq<DiffRecord<&T>>| diff_model(d))
}

/// Chain, edit scripts: where each script leads from one state to the next,
/// replaying their changes in turn from the first state passes through every
/// later state.
pub proof fn diff_chain<T: PartialEq + Clone + Debug>(
    states: Seq<Seq<T>>,
    ds: Seq<Seq<DiffRecord<&T>>>,
)
    requires
        states.len() == ds.len() + 1,
        forall|i: int| 0 <= i < states.len() ==> (#[trigger] states[i]).len() <= usize::MAX,
        forall|i: int| 0 <= i < ds.len() ==> diff_aligns(#[trigger] ds[i], states[i], states[i + 1]),
    ensures
        forall|k: int| 0 <= k < states.len() ==> replay(states[0], #[trigger] diff_models(ds).take(k))
            == states[k],
{
    let css = diff_models(ds);
    assert forall|i: int| 0 <= i < css.len() implies apply(states[i], #[trigger] css[i])
        == states[i + 1] by {
        assert(diff_aligns(ds[i], states[i], states[i + 1]));
        assert(states[i + 1].len() <= usize::MAX);
        diff_round_trip(ds[i], states[i], states[i + 1]);
    }
    chain_reaches_each_state(states, css);
}

/// The changes of each O(NP) alignment of a list, each read against the
/// state that follows it.
pub open spec fn wu_models<T: PartialEq + Clone + Debug>(
    ds: Seq<Seq<WuRecord>>,
    states: Seq<Seq<T>>,
) -> Seq<Seq<Change<T>>> {
    Seq::new(ds.len(), |i: int| wu_model(ds[i], states[i + 1]))
}

/// Chain, O(NP) alignments: where each alignment aligns one state with the
/// next, replaying their changes in turn from the first state passes through
/// every later state.
pub proof fn wu_chain<T: PartialEq + Clone + Debug>(states: Seq<Seq<T>>, ds: Seq<Seq<WuRecord>>)
    requires
        states.len() == ds.len() + 1,
        forall|i: int| 0 <= i < states.len() ==> (#[trigger] states[i]).len() <= usize::MAX,
        forall|i: int| 0 <= i < ds.len() ==> wu_aligns(#[trigger] ds[i], states[i], states[i + 1]),
    ensures
        forall|k: int| 0 <= k < states.len() ==> replay(
            states[0],
            #[trigger] wu_models(ds, states).take(k),
        ) == states[k],
{
    let css = wu_models(ds, states);
    assert forall|i: int| 0 <= i < css.len() implies apply(states[i], #[trigger] css[i])
        == states[i + 1] by {
        assert(wu_aligns(ds[i], states[i], states[i + 1]));
        assert(states[i].len() <= usize::MAX && states[i + 1].len() <= usize::MAX);
        wu_round_trip(ds[i], states[i], states[i + 1]);
    }
    chain_reaches_each_state(states, css);
}

} // verus!
