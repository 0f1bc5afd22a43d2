//! Small algebra of "select": filter a sequence by a predicate and map the
//! survivors. Every index contract is phrased through `sel`, and the
//! lemmas here push `sel` through `push` and `filter`, which is all the
//! store's mutations need.

use vstd::prelude::*;
use vstd::seq_lib::*;

verus! {

/// The elements of `s` satisfying `pred`, each transformed by `f`.
pub open spec fn sel<A, B>(s: Seq<A>, pred: spec_fn(A) -> bool, f: spec_fn(A) -> B) -> Seq<B> {
    s.filter(pred).map_values(f)
}

/// A filtered singleton is the element or nothing.
pub proof fn lemma_filter_singleton<A>(x: A, pred: spec_fn(A) -> bool)
    ensures
        pred(x) ==> seq![x].filter(pred) == seq![x],
        !pred(x) ==> seq![x].filter(pred) == Seq::<A>::empty(),
{
    reveal_with_fuel(Seq::filter, 2);
    assert(seq![x].drop_last() =~= Seq::<A>::empty());
    if pred(x) {
        assert(seq![x].filter(pred) =~= seq![x]);
    } else {
        assert(seq![x].filter(pred) =~= Seq::<A>::empty());
    }
}

/// `sel` over a pushed element appends the transformed element exactly
/// when the element passes the predicate.
pub proof fn lemma_sel_push<A, B>(s: Seq<A>, x: A, pred: spec_fn(A) -> bool, f: spec_fn(A) -> B)
    ensures
        pred(x) ==> sel(s.push(x), pred, f) == sel(s, pred, f).push(f(x)),
        !pred(x) ==> sel(s.push(x), pred, f) == sel(s, pred, f),
{
    assert(s.push(x) =~= s + seq![x]);
    Seq::filter_distributes_over_add(s, seq![x], pred);
    lemma_filter_singleton(x, pred);
    if pred(x) {
        assert((s.filter(pred) + seq![x]).map_values(f) =~= s.filter(pred).map_values(f).push(
            f(x),
        ));
    } else {
        assert(s.filter(pred) + Seq::<A>::empty() =~= s.filter(pred));
    }
}

/// Filtering commutes with `sel` when the outer test of a transformed
/// element agrees with an inner test of its source.
pub proof fn lemma_sel_filter_commute<A, B>(
    s: Seq<A>,
    keep: spec_fn(A) -> bool,
    pred: spec_fn(A) -> bool,
    f: spec_fn(A) -> B,
    q: spec_fn(B) -> bool,
)
    requires
        forall|a: A| #[trigger] keep(a) == q(f(a)),
    ensures
        sel(s.filter(keep), pred, f) == sel(s, pred, f).filter(q),
    decreases s.len(),
{
    reveal_with_fuel(Seq::filter, 2);
    if s.len() == 0 {
        assert(s.filter(keep) =~= Seq::<A>::empty());
        assert(sel(s.filter(keep), pred, f) =~= Seq::<B>::empty());
        assert(sel(s, pred, f) =~= Seq::<B>::empty());
        assert(sel(s, pred, f).filter(q) =~= Seq::<B>::empty());
    } else {
        let s0 = s.drop_last();
        let x = s.last();
        lemma_sel_filter_commute(s0, keep, pred, f, q);
        assert(s =~= s0.push(x));
        Seq::filter_distributes_over_add(s0, seq![x], keep);
        lemma_filter_singleton(x, keep);
        lemma_sel_push(s0, x, pred, f);
        if keep(x) {
            assert(s.filter(keep) =~= s0.filter(keep).push(x));
            lemma_sel_push(s0.filter(keep), x, pred, f);
            if pred(x) {
                assert(sel(s0, pred, f).push(f(x)).drop_last() =~= sel(s0, pred, f));
                assert(sel(s.filter(keep), pred, f) =~= sel(s, pred, f).filter(q));
            } else {
                assert(sel(s.filter(keep), pred, f) =~= sel(s, pred, f).filter(q));
            }
        } else {
            assert(s.filter(keep) =~= s0.filter(keep));
            if pred(x) {
                assert(sel(s, pred, f) =~= sel(s0, pred, f).push(f(x)));
                assert(sel(s0, pred, f).push(f(x)).drop_last() =~= sel(s0, pred, f));
                assert(sel(s, pred, f).filter(q) =~= sel(s0, pred, f).filter(q));
            } else {
                assert(sel(s, pred, f) =~= sel(s0, pred, f));
            }
            assert(sel(s.filter(keep), pred, f) =~= sel(s, pred, f).filter(q));
        }
    }
}

/// Selecting from the empty sequence yields the empty sequence.
pub proof fn lemma_sel_empty<A, B>(pred: spec_fn(A) -> bool, f: spec_fn(A) -> B)
    ensures
        sel(Seq::<A>::empty(), pred, f) == Seq::<B>::empty(),
{
    reveal_with_fuel(Seq::filter, 1);
    assert(Seq::<A>::empty().filter(pred) =~= Seq::<A>::empty());
    assert(sel(Seq::<A>::empty(), pred, f) =~= Seq::<B>::empty());
}

/// A pre-filter that keeps everything the selection predicate accepts
/// does not change the selection.
pub proof fn lemma_sel_filter_subsume<A, B>(
    s: Seq<A>,
    keep: spec_fn(A) -> bool,
    pred: spec_fn(A) -> bool,
    f: spec_fn(A) -> B,
)
    requires
        forall|a: A| #[trigger] pred(a) ==> keep(a),
    ensures
        sel(s.filter(keep), pred, f) == sel(s, pred, f),
    decreases s.len(),
{
    reveal_with_fuel(Seq::filter, 2);
    if s.len() == 0 {
        assert(s.filter(keep) =~= Seq::<A>::empty());
        lemma_sel_empty(pred, f);
        assert(sel(s, pred, f) =~= Seq::<B>::empty());
    } else {
        let s0 = s.drop_last();
        let x = s.last();
        lemma_sel_filter_subsume(s0, keep, pred, f);
        assert(s =~= s0.push(x));
        Seq::filter_distributes_over_add(s0, seq![x], keep);
        lemma_filter_singleton(x, keep);
        lemma_sel_push(s0, x, pred, f);
        if keep(x) {
            assert(s.filter(keep) =~= s0.filter(keep).push(x));
            lemma_sel_push(s0.filter(keep), x, pred, f);
        } else {
            assert(!pred(x));
            assert(s.filter(keep) =~= s0.filter(keep));
        }
    }
}

/// Extending a prefix by one element extends its filtration by that
/// element exactly when the element passes.
pub proof fn lemma_filter_take_step<A>(orig: Seq<A>, k: int, keep: spec_fn(A) -> bool)
    requires
        0 <= k < orig.len(),
    ensures
        keep(orig[k]) ==> orig.take(k + 1).filter(keep) == orig.take(k).filter(keep).push(orig[k]),
        !keep(orig[k]) ==> orig.take(k + 1).filter(keep) == orig.take(k).filter(keep),
{
    assert(orig.take(k + 1) =~= orig.take(k) + seq![orig[k]]);
    Seq::filter_distributes_over_add(orig.take(k), seq![orig[k]], keep);
    lemma_filter_singleton(orig[k], keep);
    if keep(orig[k]) {
        assert(orig.take(k).filter(keep) + seq![orig[k]] =~= orig.take(k).filter(keep).push(
            orig[k],
        ));
    } else {
        assert(orig.take(k).filter(keep) + Seq::<A>::empty() =~= orig.take(k).filter(keep));
    }
}

/// A selection over a prefix is the corresponding prefix of the whole
/// selection.
pub proof fn lemma_sel_prefix<A, B>(s: Seq<A>, i: int, pred: spec_fn(A) -> bool, f: spec_fn(A) -> B)
    requires
        0 <= i <= s.len(),
    ensures
        sel(s, pred, f).len() >= sel(s.take(i), pred, f).len(),
        sel(s.take(i), pred, f) == sel(s, pred, f).take(sel(s.take(i), pred, f).len() as int),
{
    assert(s =~= s.take(i) + s.skip(i));
    Seq::filter_distributes_over_add(s.take(i), s.skip(i), pred);
    let a = s.take(i).filter(pred);
    let b = s.skip(i).filter(pred);
    assert((a + b).map_values(f) =~= a.map_values(f) + b.map_values(f));
    assert((a.map_values(f) + b.map_values(f)).take(a.len() as int) =~= a.map_values(f));
}

/// Inserting an element anywhere adds exactly it to the content.
pub proof fn lemma_insert_to_multiset<A>(s: Seq<A>, p: int, x: A)
    requires
        0 <= p <= s.len(),
    ensures
        s.insert(p, x).to_multiset() == s.to_multiset().insert(x),
{
    broadcast use group_to_multiset_ensures;

    let t = s.insert(p, x);
    assert(t[p] == x);
    assert(t.remove(p) =~= s);
    assert(s.to_multiset() =~= t.to_multiset().remove(x));
    assert(t.contains(x));
    assert(t.to_multiset().count(x) > 0);
    assert(t.to_multiset() =~= s.to_multiset().insert(x));
}

/// A filter that accepts every element changes nothing.
pub proof fn lemma_filter_all<A>(s: Seq<A>, pred: spec_fn(A) -> bool)
    requires
        forall|i: int| 0 <= i < s.len() ==> pred(#[trigger] s[i]),
    ensures
        s.filter(pred) == s,
    decreases s.len(),
{
    reveal_with_fuel(Seq::filter, 2);
    if s.len() == 0 {
        assert(s.filter(pred) =~= s);
    } else {
        let s0 = s.drop_last();
        assert(forall|i: int| 0 <= i < s0.len() ==> pred(#[trigger] s0[i]));
        lemma_filter_all(s0, pred);
        assert(pred(s[s.len() - 1]));
        assert(s.filter(pred) =~= s);
    }
}

/// Nothing survives a filter that rejects every element.
pub proof fn lemma_filter_none<A>(s: Seq<A>, pred: spec_fn(A) -> bool)
    requires
        forall|i: int| 0 <= i < s.len() ==> !pred(#[trigger] s[i]),
    ensures
        s.filter(pred) == Seq::<A>::empty(),
    decreases s.len(),
{
    reveal_with_fuel(Seq::filter, 2);
    if s.len() == 0 {
        assert(s.filter(pred) =~= Seq::<A>::empty());
    } else {
        let s0 = s.drop_last();
        assert(forall|i: int| 0 <= i < s0.len() ==> !pred(#[trigger] s0[i]));
        lemma_filter_none(s0, pred);
        assert(!pred(s[s.len() - 1]));
    }
}

/// A pre-filter that rejects everything the selection predicate accepts
/// empties the selection.
pub proof fn lemma_sel_filter_disjoint<A, B>(
    s: Seq<A>,
    keep: spec_fn(A) -> bool,
    pred: spec_fn(A) -> bool,
    f: spec_fn(A) -> B,
)
    requires
        forall|a: A| #[trigger] pred(a) ==> !keep(a),
    ensures
        sel(s.filter(keep), pred, f) == Seq::<B>::empty(),
{
    broadcast use group_filter_ensures;

    let kept = s.filter(keep);
    assert(forall|i: int| 0 <= i < kept.len() ==> !pred(#[trigger] kept[i]));
    lemma_filter_none(kept, pred);
    assert(sel(s.filter(keep), pred, f) =~= Seq::<B>::empty());
}

/// When the first matching element of `s` stands at `i`, the selection
/// starts with its image.
pub proof fn lemma_sel_first<A, B>(s: Seq<A>, pred: spec_fn(A) -> bool, f: spec_fn(A) -> B, i: int)
    requires
        0 <= i < s.len(),
        pred(s[i]),
        forall|j: int| 0 <= j < i ==> !pred(#[trigger] s[j]),
    ensures
        sel(s, pred, f).len() > 0,
        sel(s, pred, f)[0] == f(s[i]),
{
    let head = s.take(i);
    let tail = s.skip(i + 1);
    assert(s =~= head + (seq![s[i]] + tail));
    Seq::filter_distributes_over_add(head, seq![s[i]] + tail, pred);
    Seq::filter_distributes_over_add(seq![s[i]], tail, pred);
    assert(forall|j: int| 0 <= j < head.len() ==> !pred(#[trigger] head[j]));
    lemma_filter_none(head, pred);
    lemma_filter_singleton(s[i], pred);
    assert(s.filter(pred) =~= seq![s[i]] + tail.filter(pred));
    assert(s.filter(pred)[0] == s[i]);
}

/// An element is selected exactly when some source element passing the
/// predicate maps to it.
pub proof fn lemma_sel_contains<A, B>(
    s: Seq<A>,
    pred: spec_fn(A) -> bool,
    f: spec_fn(A) -> B,
    i: int,
)
    requires
        0 <= i < s.len(),
        pred(s[i]),
    ensures
        sel(s, pred, f).contains(f(s[i])),
{
    broadcast use group_filter_ensures;

    assert(s.filter(pred).contains(s[i]));
    let j = choose|j: int| 0 <= j < s.filter(pred).len() && s.filter(pred)[j] == s[i];
    assert(sel(s, pred, f)[j] == f(s[i]));
}

} // verus!
