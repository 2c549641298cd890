use vstd::prelude::*;

verus! {

/// A filter keeps a sequence whole when every element passes.
pub proof fn lemma_filter_keeps_all<A>(s: Seq<A>, f: spec_fn(A) -> bool)
    requires
        forall|i: int| 0 <= i < s.len() ==> f(#[trigger] s[i]),
    ensures
        s.filter(f) == s,
    decreases s.len(),
{
    reveal(Seq::filter);
    if s.len() > 0 {
        lemma_filter_keeps_all(s.drop_last(), f);
        assert(s.drop_last().push(s.last()) =~= s);
    } else {
        assert(s.filter(f) =~= s);
    }
}

/// A filter leaves nothing when no element passes.
pub proof fn lemma_filter_drops_all<A>(s: Seq<A>, f: spec_fn(A) -> bool)
    requires
        forall|i: int| 0 <= i < s.len() ==> !f(#[trigger] s[i]),
    ensures
        s.filter(f) == Seq::<A>::empty(),
    decreases s.len(),
{
    reveal(Seq::filter);
    if s.len() > 0 {
        lemma_filter_drops_all(s.drop_last(), f);
    } else {
        assert(s.filter(f) =~= Seq::<A>::empty());
    }
}

/// Where a predicate fails on the first `p` elements and holds on the rest,
/// the filter is the rest.
pub proof fn lemma_filter_is_suffix<A>(s: Seq<A>, f: spec_fn(A) -> bool, p: int)
    requires
        0 <= p <= s.len(),
        forall|i: int| 0 <= i < p ==> !f(#[trigger] s[i]),
        forall|i: int| p <= i < s.len() ==> f(#[trigger] s[i]),
    ensures
        s.filter(f) == s.skip(p),
{
    assert(s =~= s.take(p) + s.skip(p));
    Seq::filter_distributes_over_add(s.take(p), s.skip(p), f);
    lemma_filter_drops_all(s.take(p), f);
    lemma_filter_keeps_all(s.skip(p), f);
    assert(Seq::<A>::empty() + s.skip(p) =~= s.skip(p));
}

/// Where a predicate holds on the first `p` elements and fails on the rest,
/// the filter is those first `p`.
pub proof fn lemma_filter_is_prefix<A>(s: Seq<A>, f: spec_fn(A) -> bool, p: int)
    requires
        0 <= p <= s.len(),
        forall|i: int| 0 <= i < p ==> f(#[trigger] s[i]),
        forall|i: int| p <= i < s.len() ==> !f(#[trigger] s[i]),
    ensures
        s.filter(f) == s.take(p),
{
    assert(s =~= s.take(p) + s.skip(p));
    Seq::filter_distributes_over_add(s.take(p), s.skip(p), f);
    lemma_filter_keeps_all(s.take(p), f);
    lemma_filter_drops_all(s.skip(p), f);
    assert(s.take(p) + Seq::<A>::empty() =~= s.take(p));
}

/// Where a predicate fails at index `k` alone, the filter removes that one
/// element.
pub proof fn lemma_filter_removes_one<A>(s: Seq<A>, f: spec_fn(A) -> bool, k: int)
    requires
        0 <= k < s.len(),
        !f(s[k]),
        forall|i: int| 0 <= i < s.len() && i != k ==> f(#[trigger] s[i]),
    ensures
        s.filter(f) == s.remove(k),
{
    let head = s.take(k);
    let mid = seq![s[k]];
    let tail = s.skip(k + 1);
    assert(s =~= (head + mid) + tail);
    Seq::filter_distributes_over_add(head + mid, tail, f);
    Seq::filter_distributes_over_add(head, mid, f);
    lemma_filter_keeps_all(head, f);
    lemma_filter_drops_all(mid, f);
    lemma_filter_keeps_all(tail, f);
    assert((head + Seq::<A>::empty()) + tail =~= s.remove(k));
}

} // verus!
