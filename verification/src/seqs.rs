//! Facts about sequences, filters and multisets that the proofs of the tree use.
use vstd::prelude::*;

verus! {

/// Filtering one element more of a sequence appends that element or nothing.
pub proof fn lemma_filter_next<A>(s: Seq<A>, p: spec_fn(A) -> bool, i: int)
    requires
        0 <= i < s.len(),
    ensures
        s.take(i + 1).filter(p) == if p(s[i]) {
            s.take(i).filter(p).push(s[i])
        } else {
            s.take(i).filter(p)
        },
{
    assert(s.take(i + 1) == s.take(i).push(s[i]));
    s.take(i).lemma_filter_push(s[i], p);
}

/// Each element of a filtered sequence satisfies the filter and comes from the
/// sequence.
pub proof fn lemma_filter_member<A>(s: Seq<A>, p: spec_fn(A) -> bool, k: int)
    requires
        0 <= k < s.filter(p).len(),
    ensures
        p(s.filter(p)[k]),
        s.contains(s.filter(p)[k]),
{
    s.lemma_filter_pred(p, k);
    s.lemma_filter_contains_rev(p, s.filter(p)[k]);
}

/// Mapping a concatenation maps its two parts.
pub proof fn lemma_map_add<A, B>(s: Seq<A>, t: Seq<A>, f: spec_fn(A) -> B)
    ensures
        (s + t).map_values(f) == s.map_values(f) + t.map_values(f),
{
    assert((s + t).map_values(f) =~= s.map_values(f) + t.map_values(f));
}

/// A filter keeps each element as often as the sequence holds it, or not at all.
pub proof fn lemma_filter_count<A>(s: Seq<A>, p: spec_fn(A) -> bool, x: A)
    ensures
        s.filter(p).to_multiset().count(x) == if p(x) {
            s.to_multiset().count(x)
        } else {
            0
        },
    decreases s.len(),
{
    broadcast use vstd::multiset::group_multiset_axioms;

    if s.len() == 0 {
        assert(s.filter(p) =~= s) by {
            reveal(Seq::filter);
        }
        s.to_multiset_ensures();
        assert(s.to_multiset().len() == 0);
    } else {
        let front = s.drop_last();
        assert(s == front.push(s.last()));
        lemma_filter_count(front, p, x);
        front.lemma_filter_push(s.last(), p);
        vstd::seq_lib::to_multiset_build(front, s.last());
        if p(s.last()) {
            vstd::seq_lib::to_multiset_build(front.filter(p), s.last());
        }
    }
}

/// Two sequences with the same elements keep the same elements under a filter.
pub proof fn lemma_filter_same<A>(s: Seq<A>, t: Seq<A>, p: spec_fn(A) -> bool)
    requires
        s.to_multiset() == t.to_multiset(),
    ensures
        s.filter(p).to_multiset() == t.filter(p).to_multiset(),
{
    assert forall|x: A|
        s.filter(p).to_multiset().count(x) == t.filter(p).to_multiset().count(x) by {
        lemma_filter_count(s, p, x);
        lemma_filter_count(t, p, x);
    }
    assert(s.filter(p).to_multiset() =~= t.filter(p).to_multiset());
}

/// A filter that no element satisfies leaves nothing.
pub proof fn lemma_filter_none<A>(s: Seq<A>, p: spec_fn(A) -> bool)
    requires
        forall|i: int| 0 <= i < s.len() ==> !p(#[trigger] s[i]),
    ensures
        s.filter(p) == Seq::<A>::empty(),
{
    if s.filter(p).len() > 0 {
        lemma_filter_member(s, p, 0);
        let x = s.filter(p)[0];
        let j = choose|j: int| 0 <= j < s.len() && s[j] == x;
        assert(!p(s[j]));
    }
    assert(s.filter(p) =~= Seq::<A>::empty());
}

/// Three filters of which each element satisfies exactly one part a sequence
/// into its elements.
pub proof fn lemma_filter_parts<A>(
    s: Seq<A>,
    p: spec_fn(A) -> bool,
    q: spec_fn(A) -> bool,
    r: spec_fn(A) -> bool,
)
    requires
        forall|x: A|
            #![trigger p(x)]
            (p(x) && !q(x) && !r(x)) || (!p(x) && q(x) && !r(x)) || (!p(x) && !q(x) && r(x)),
    ensures
        (s.filter(p) + s.filter(q) + s.filter(r)).to_multiset() == s.to_multiset(),
{
    broadcast use vstd::multiset::group_multiset_axioms;

    let all = s.filter(p) + s.filter(q) + s.filter(r);
    vstd::seq_lib::lemma_multiset_commutative(s.filter(p), s.filter(q));
    vstd::seq_lib::lemma_multiset_commutative(s.filter(p) + s.filter(q), s.filter(r));
    assert forall|x: A| all.to_multiset().count(x) == s.to_multiset().count(x) by {
        lemma_filter_count(s, p, x);
        lemma_filter_count(s, q, x);
        lemma_filter_count(s, r, x);
        assert(p(x) || q(x) || r(x));
    }
    assert(all.to_multiset() =~= s.to_multiset());
}

/// Two sequences with the same elements have the same elements after a map.
pub proof fn lemma_map_same<A, B>(s: Seq<A>, t: Seq<A>, f: spec_fn(A) -> B)
    requires
        s.to_multiset() == t.to_multiset(),
    ensures
        s.map_values(f).to_multiset() == t.map_values(f).to_multiset(),
    decreases s.len(),
{
    broadcast use vstd::multiset::group_multiset_axioms;

    vstd::seq_lib::to_multiset_len(s);
    vstd::seq_lib::to_multiset_len(t);
    if s.len() == 0 {
        assert(s.map_values(f) =~= t.map_values(f));
    } else {
        let x = s.last();
        let front = s.drop_last();
        assert(s == front.push(x));
        vstd::seq_lib::to_multiset_build(front, x);
        vstd::seq_lib::to_multiset_contains(t, x);
        let j = choose|j: int| 0 <= j < t.len() && t[j] == x;
        let rest = t.remove(j);
        vstd::seq_lib::to_multiset_remove(t, j);
        assert(front.to_multiset() =~= rest.to_multiset());
        lemma_map_same(front, rest, f);
        assert(s.map_values(f) =~= front.map_values(f).push(f(x)));
        assert(t.map_values(f) =~= rest.map_values(f).insert(j, f(x)));
        vstd::seq_lib::to_multiset_build(front.map_values(f), f(x));
        vstd::seq_lib::to_multiset_insert(rest.map_values(f), j, f(x));
    }
}

/// The empty sequence has no elements.
pub proof fn lemma_empty_multiset<A>()
    ensures
        Seq::<A>::empty().to_multiset() == vstd::multiset::Multiset::<A>::empty(),
{
    broadcast use vstd::multiset::group_multiset_axioms;

    vstd::seq_lib::to_multiset_len(Seq::<A>::empty());
    assert(Seq::<A>::empty().to_multiset() =~= vstd::multiset::Multiset::<A>::empty());
}

} // verus!
