//! Facts about filtering and counting in multisets.

use vstd::prelude::*;
use vstd::multiset::*;

verus! {

/// Filtering never adds elements.
pub proof fn lemma_filter_len_le<V>(m: Multiset<V>, f: spec_fn(V) -> bool)
    ensures
        m.filter(f).len() <= m.len(),
{
    broadcast use group_multiset_axioms;

    let rest = m.filter(|v: V| !f(v));
    assert(m =~= m.filter(f).add(rest));
}

/// A filter that rejects every element of the multiset leaves nothing.
pub proof fn lemma_filter_none<V>(m: Multiset<V>, f: spec_fn(V) -> bool)
    requires
        forall|v: V| m.contains(v) ==> !f(v),
    ensures
        m.filter(f) == Multiset::<V>::empty(),
        m.filter(f).len() == 0,
{
    broadcast use group_multiset_axioms;

    assert forall|v: V| m.filter(f).count(v) == 0 by {
        if f(v) {
            assert(!m.contains(v));
        }
    }
    assert(m.filter(f) =~= Multiset::<V>::empty());
}

/// A filter that accepts every element of the multiset changes nothing.
pub proof fn lemma_filter_all<V>(m: Multiset<V>, f: spec_fn(V) -> bool)
    requires
        forall|v: V| m.contains(v) ==> f(v),
    ensures
        m.filter(f) == m,
{
    broadcast use group_multiset_axioms;

    assert forall|v: V| m.filter(f).count(v) == m.count(v) by {
        if !f(v) {
            assert(!m.contains(v));
        }
    }
    assert(m.filter(f) =~= m);
}

/// Filtering after inserting is inserting after filtering, if the new
/// element passes the filter, and plain filtering otherwise.
pub proof fn lemma_filter_insert<V>(m: Multiset<V>, f: spec_fn(V) -> bool, v: V)
    ensures
        f(v) ==> m.insert(v).filter(f) == m.filter(f).insert(v),
        !f(v) ==> m.insert(v).filter(f) == m.filter(f),
        m.insert(v).filter(f).len() == m.filter(f).len() + if f(v) { 1nat } else { 0nat },
{
    broadcast use group_multiset_axioms;

    if f(v) {
        assert(m.insert(v).filter(f) =~= m.filter(f).insert(v));
    } else {
        assert(m.insert(v).filter(f) =~= m.filter(f));
    }
}

/// Of two filters applied in turn, the first is redundant if everything that
/// passes the second passes the first as well.
pub proof fn lemma_filter_narrow<V>(m: Multiset<V>, f: spec_fn(V) -> bool, g: spec_fn(V) -> bool)
    requires
        forall|v: V| #[trigger] g(v) ==> f(v),
    ensures
        m.filter(f).filter(g) == m.filter(g),
{
    broadcast use group_multiset_axioms;

    assert(m.filter(f).filter(g) =~= m.filter(g));
}

/// Every multiset is the multiset of some sequence.
pub proof fn lemma_multiset_as_seq<V>(m: Multiset<V>) -> (s: Seq<V>)
    ensures
        s.to_multiset() == m,
    decreases m.len(),
{
    broadcast use group_multiset_axioms;

    if m.len() == 0 {
        let s = Seq::<V>::empty();
        s.to_multiset_ensures();
        lemma_multiset_empty_len(m);
        lemma_multiset_empty_len(s.to_multiset());
        s
    } else {
        let v = m.choose();
        let rest = m.remove(v);
        assert(Multiset::singleton(v).subset_of(m));
        let shorter = lemma_multiset_as_seq(rest);
        shorter.to_multiset_ensures();
        assert(rest.insert(v) =~= m);
        shorter.push(v)
    }
}

} // verus!
