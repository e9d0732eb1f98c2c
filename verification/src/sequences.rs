//! Facts about filtered sequences that the logs share.

use vstd::prelude::*;

verus! {

/// A filter that every element passes keeps the sequence as it is.
pub proof fn lemma_filter_keeps_all<A>(s: Seq<A>, pred: spec_fn(A) -> bool)
    requires
        forall|i: int| 0 <= i < s.len() ==> pred(#[trigger] s[i]),
    ensures
        s.filter(pred) == s,
    decreases s.len(),
{
    reveal(Seq::filter);
    if s.len() > 0 {
        lemma_filter_keeps_all(s.drop_last(), pred);
        assert(s.drop_last().push(s.last()) =~= s);
    }
}

/// A filter that no element passes leaves nothing.
pub proof fn lemma_filter_keeps_none<A>(s: Seq<A>, pred: spec_fn(A) -> bool)
    requires
        forall|i: int| 0 <= i < s.len() ==> !pred(#[trigger] s[i]),
    ensures
        s.filter(pred) == Seq::<A>::empty(),
    decreases s.len(),
{
    reveal(Seq::filter);
    if s.len() > 0 {
        lemma_filter_keeps_none(s.drop_last(), pred);
    }
}

/// Filtering a sequence is filtering what lies before an index and what
/// lies from it on.
pub proof fn lemma_filter_split<A>(s: Seq<A>, pred: spec_fn(A) -> bool, at: int)
    requires
        0 <= at <= s.len(),
    ensures
        s.filter(pred) == s.take(at).filter(pred) + s.skip(at).filter(pred),
{
    assert(s.take(at) + s.skip(at) =~= s);
    Seq::filter_distributes_over_add(s.take(at), s.skip(at), pred);
}

/// What a filter keeps is what the sequence holds and the test passes.
pub proof fn lemma_filter_members<A>(s: Seq<A>, pred: spec_fn(A) -> bool, e: A)
    ensures
        s.filter(pred).contains(e) <==> s.contains(e) && pred(e),
{
    let kept = s.filter(pred);
    if kept.contains(e) {
        s.lemma_filter_contains_rev(pred, e);
        let i = choose|i: int| 0 <= i < kept.len() && kept[i] == e;
        s.lemma_filter_pred(pred, i);
    }
    if s.contains(e) && pred(e) {
        let i = choose|i: int| 0 <= i < s.len() && s[i] == e;
        s.lemma_filter_contains(pred, i);
    }
}

/// Filtering by a looser test first changes nothing: where whatever passes
/// `inner` passes `outer` too, filtering by `outer` and then by `inner` is
/// filtering by `inner`.
pub proof fn lemma_filter_implied<A>(s: Seq<A>, outer: spec_fn(A) -> bool, inner: spec_fn(A) -> bool)
    requires
        forall|i: int| 0 <= i < s.len() && inner(#[trigger] s[i]) ==> outer(s[i]),
    ensures
        s.filter(outer).filter(inner) == s.filter(inner),
    decreases s.len(),
{
    reveal(Seq::filter);
    if s.len() > 0 {
        let rest = s.drop_last();
        lemma_filter_implied(rest, outer, inner);
        assert(inner(s[s.len() - 1]) ==> outer(s[s.len() - 1]));
        if outer(s.last()) {
            rest.filter(outer).lemma_filter_push(s.last(), inner);
        }
    }
}

} // verus!
