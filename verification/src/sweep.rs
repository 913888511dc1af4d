//! Sweeps miss nothing and repeat nothing: a sweep of a tree reports what
//! exhaustive testing of its entities reports.
use crate::view::TreeView;
use crate::BoundBox;
use crate::Located;
use vstd::prelude::*;

verus! {

/// Listed either way, a tree has the same entities.
pub proof fn lemma_bottom_up_items<L: Located>(t: TreeView<L>)
    ensures
        t.bottom_up().to_multiset() == t.items().to_multiset(),
    decreases t,
{
    broadcast use vstd::multiset::group_multiset_axioms;

    match t.kids {
        None => {},
        Some(k) => {
            let (l, r) = *k;
            lemma_bottom_up_items(l);
            lemma_bottom_up_items(r);
            vstd::seq_lib::lemma_multiset_commutative(l.bottom_up(), r.bottom_up());
            vstd::seq_lib::lemma_multiset_commutative(l.bottom_up() + r.bottom_up(), t.top);
            vstd::seq_lib::lemma_multiset_commutative(t.top, l.items());
            vstd::seq_lib::lemma_multiset_commutative(t.top + l.items(), r.items());
            assert(t.bottom_up().to_multiset() =~= t.items().to_multiset());
        },
    }
}

/// Where a tree is confined, each of its entities is, listed from the bottom
/// up as well.
pub proof fn lemma_confined_bottom_up<L: Located>(t: TreeView<L>, a: L::Box, b: L::Box)
    requires
        t.confined(a, b),
    ensures
        forall|i: int|
            0 <= i < t.bottom_up().len() ==> crate::view::on_side(
                #[trigger] t.bottom_up()[i],
                a,
                b,
            ),
    decreases t,
{
    match t.kids {
        None => {
            assert(t.bottom_up() == t.top);
        },
        Some(k) => {
            lemma_confined_bottom_up(k.0, a, b);
            lemma_confined_bottom_up(k.1, a, b);
            assert(t.bottom_up() == k.0.bottom_up() + k.1.bottom_up() + t.top);
        },
    }
}

/// Testing against two lists with the same entities reports the same pairs.
pub proof fn lemma_cross_same<L: Located>(r: Seq<L>, r2: Seq<L>, s: Seq<L>)
    requires
        r.to_multiset() == r2.to_multiset(),
    ensures
        crate::view::cross_force(r, s).to_multiset() == crate::view::cross_force(
            r2,
            s,
        ).to_multiset(),
    decreases s.len(),
{
    broadcast use vstd::multiset::group_multiset_axioms;

    if s.len() > 0 {
        let hit = crate::view::meets::<L>(s.last().spec_bounds());
        let pair = crate::view::pair_with(s.last());
        lemma_cross_same(r, r2, s.drop_last());
        crate::seqs::lemma_filter_same(r, r2, hit);
        crate::seqs::lemma_map_same(r.filter(hit), r2.filter(hit), pair);
        vstd::seq_lib::lemma_multiset_commutative(
            crate::view::cross_force(r, s.drop_last()),
            r.filter(hit).map_values(pair),
        );
        vstd::seq_lib::lemma_multiset_commutative(
            crate::view::cross_force(r2, s.drop_last()),
            r2.filter(hit).map_values(pair),
        );
    }
}

/// Testing against a list none of whose entities collides with any of the
/// tested ones reports nothing.
pub proof fn lemma_cross_none<L: Located>(r: Seq<L>, s: Seq<L>)
    requires
        forall|i: int, j: int|
            0 <= i < r.len() && 0 <= j < s.len() ==> !crate::view::touches(
                #[trigger] r[i],
                (#[trigger] s[j]).spec_bounds(),
            ),
    ensures
        crate::view::cross_force(r, s) == Seq::<(L::ID, L::ID)>::empty(),
    decreases s.len(),
{
    if s.len() > 0 {
        let hit = crate::view::meets::<L>(s.last().spec_bounds());
        let front = s.drop_last();
        assert forall|i: int, j: int|
            0 <= i < r.len() && 0 <= j < front.len() implies !crate::view::touches(
            #[trigger] r[i],
            (#[trigger] front[j]).spec_bounds(),
        ) by {
            assert(front[j] == s[j]);
        }
        lemma_cross_none(r, front);
        assert forall|i: int| 0 <= i < r.len() implies !hit(#[trigger] r[i]) by {
            assert(s.last() == s[s.len() - 1]);
        }
        crate::seqs::lemma_filter_none(r, hit);
        assert(crate::view::cross_force(r, s) =~= Seq::<(L::ID, L::ID)>::empty());
    }
}

/// Exhaustive testing of two lists, one after the other, reports what it
/// reports for each, and what testing the second against the first reports.
pub proof fn lemma_brute_force_add<L: Located>(a: Seq<L>, b: Seq<L>)
    ensures
        crate::view::brute_force(a + b).to_multiset() == crate::view::brute_force(
            a,
        ).to_multiset().add(crate::view::brute_force(b).to_multiset()).add(
            crate::view::cross_force(a, b).to_multiset(),
        ),
    decreases b.len(),
{
    broadcast use vstd::multiset::group_multiset_axioms;

    if b.len() == 0 {
        assert(a + b == a);
        crate::seqs::lemma_empty_multiset::<(L::ID, L::ID)>();
        assert(crate::view::brute_force(a + b).to_multiset() =~= crate::view::brute_force(
            a,
        ).to_multiset().add(crate::view::brute_force(b).to_multiset()).add(
            crate::view::cross_force(a, b).to_multiset(),
        ));
    } else {
        let last = b.last();
        let front = b.drop_last();
        let hit = crate::view::meets::<L>(last.spec_bounds());
        let pair = crate::view::pair_with(last);
        assert((a + b).drop_last() == a + front);
        assert((a + b).last() == last);
        lemma_brute_force_add(a, front);
        Seq::filter_distributes_over_add(a, front, hit);
        crate::seqs::lemma_map_add(a.filter(hit), front.filter(hit), pair);
        let x = a.filter(hit).map_values(pair);
        let y = front.filter(hit).map_values(pair);
        vstd::seq_lib::lemma_multiset_commutative(x, y);
        vstd::seq_lib::lemma_multiset_commutative(crate::view::brute_force(a + front), x + y);
        vstd::seq_lib::lemma_multiset_commutative(crate::view::brute_force(front), y);
        vstd::seq_lib::lemma_multiset_commutative(crate::view::cross_force(a, front), x);
        assert(crate::view::brute_force(a + b).to_multiset() =~= crate::view::brute_force(
            a,
        ).to_multiset().add(crate::view::brute_force(b).to_multiset()).add(
            crate::view::cross_force(a, b).to_multiset(),
        ));
    }
}

/// Probing the two children of a node with each entity kept at the node
/// reports what testing these entities against all entities below the node
/// reports, pair by pair.
pub proof fn lemma_crossed<L: Located>(whole: L::Box, top: Seq<L>, l: TreeView<L>, r: TreeView<L>)
    requires
        whole.valid(),
        whole.proper(),
        whole.spec_split() == (l.bound, r.bound),
        l.wf(),
        r.wf(),
        l.confined(l.bound, r.bound),
        r.confined(r.bound, l.bound),
        forall|i: int| 0 <= i < top.len() ==> whole.spec_hits(&(#[trigger] top[i]).spec_bounds()),
    ensures
        TreeView::crossed(top, l, r) == crate::view::cross_force(l.items() + r.items(), top),
    decreases top.len(),
{
    if top.len() > 0 {
        let q = top.last().spec_bounds();
        let hit = crate::view::meets::<L>(q);
        assert(whole.spec_hits(&top[top.len() - 1].spec_bounds()));
        assert forall|i: int| 0 <= i < top.drop_last().len() implies whole.spec_hits(
            &(#[trigger] top.drop_last()[i]).spec_bounds(),
        ) by {
            assert(top.drop_last()[i] == top[i]);
        }
        lemma_crossed(whole, top.drop_last(), l, r);
        whole.lemma_split_proper();
        if l.bound.spec_hits(&q) {
            crate::complete::lemma_probe_all(l, q);
        } else {
            crate::complete::lemma_half_clear(l, whole, l.bound, r.bound, q);
            crate::complete::lemma_probe_nothing(l, q);
        }
        if r.bound.spec_hits(&q) {
            crate::complete::lemma_probe_all(r, q);
        } else {
            crate::complete::lemma_half_clear(r, whole, r.bound, l.bound, q);
            crate::complete::lemma_probe_nothing(r, q);
        }
        Seq::filter_distributes_over_add(l.items(), r.items(), hit);
    }
}

/// A sweep reports what exhaustive testing reports.
///
/// In a well formed tree over a proper region, whose entities at the root all
/// collide with that region, the pairs that a sweep reports are, as a
/// multiset, the pairs that exhaustive testing reports for the entities of the
/// tree: no pair is missed and none is reported twice.  Exhaustive testing
/// names the earlier entity of a list first, and a sweep names the entity
/// below first when it probes the children of a node; so the list is the one
/// that has the entities below a node before those kept at it.
pub proof fn lemma_swept_brute_force<L: Located>(t: TreeView<L>)
    requires
        t.wf(),
        t.bound.proper(),
        forall|i: int|
            0 <= i < t.top.len() ==> t.bound.spec_hits(&(#[trigger] t.top[i]).spec_bounds()),
    ensures
        t.swept().to_multiset() == crate::view::brute_force(t.bottom_up()).to_multiset(),
    decreases t,
{
    broadcast use vstd::multiset::group_multiset_axioms;

    match t.kids {
        None => {
            assert(t.swept() == crate::view::brute_force(t.top) + Seq::<(L::ID, L::ID)>::empty());
            assert(crate::view::brute_force(t.top) + Seq::<(L::ID, L::ID)>::empty()
                == crate::view::brute_force(t.top));
        },
        Some(k) => {
            let (l, r) = *k;
            let lb = l.bottom_up();
            let rb = r.bottom_up();
            t.bound.lemma_split_proper();
            lemma_swept_brute_force(l);
            lemma_swept_brute_force(r);
            lemma_crossed(t.bound, t.top, l, r);
            lemma_bottom_up_items(l);
            lemma_bottom_up_items(r);
            vstd::seq_lib::lemma_multiset_commutative(l.items(), r.items());
            vstd::seq_lib::lemma_multiset_commutative(lb, rb);
            lemma_cross_same(l.items() + r.items(), lb + rb, t.top);
            lemma_confined_bottom_up(l, l.bound, r.bound);
            lemma_confined_bottom_up(r, r.bound, l.bound);
            assert forall|i: int, j: int|
                0 <= i < lb.len() && 0 <= j < rb.len() implies !crate::view::touches(
                #[trigger] lb[i],
                (#[trigger] rb[j]).spec_bounds(),
            ) by {
                t.bound.lemma_split_within(&rb[j].spec_bounds());
                t.bound.lemma_split_separates(&lb[i].spec_bounds(), &rb[j].spec_bounds());
            }
            lemma_cross_none(lb, rb);
            crate::seqs::lemma_empty_multiset::<(L::ID, L::ID)>();
            lemma_brute_force_add(lb, rb);
            lemma_brute_force_add(lb + rb, t.top);
            let among = crate::view::brute_force(t.top);
            let across = TreeView::crossed(t.top, l, r);
            vstd::seq_lib::lemma_multiset_commutative(among, across + l.swept() + r.swept());
            vstd::seq_lib::lemma_multiset_commutative(across + l.swept(), r.swept());
            vstd::seq_lib::lemma_multiset_commutative(across, l.swept());
            assert(t.swept() == among + (across + l.swept() + r.swept()));
            assert(t.bottom_up() == lb + rb + t.top);
            assert(across.to_multiset() == crate::view::cross_force(lb + rb, t.top).to_multiset());
            assert(t.swept().to_multiset() =~= among.to_multiset().add(
                across.to_multiset().add(l.swept().to_multiset()).add(r.swept().to_multiset()),
            ));
            assert(t.swept().to_multiset() =~= crate::view::brute_force(
                t.bottom_up(),
            ).to_multiset());
        },
    }
}

/// A sweep of a tree that insertions have built reports what exhaustive
/// testing of the inserted entities reports, listed as the tree lists them
/// from the bottom up.
pub proof fn lemma_built_swept<L: Located>(universe: L::Box, s: Seq<L>)
    requires
        universe.valid(),
        universe.proper(),
        forall|i: int|
            0 <= i < s.len() ==> (#[trigger] s[i]).spec_bounds().valid() && universe.spec_hits(
                &s[i].spec_bounds(),
            ),
        TreeView::built(universe, s) is Some,
    ensures
        ({
            let t = TreeView::built(universe, s).unwrap().0;
            &&& t.swept().to_multiset() == crate::view::brute_force(t.bottom_up()).to_multiset()
            &&& t.bottom_up().to_multiset() == s.to_multiset()
        }),
{
    let t = TreeView::built(universe, s).unwrap().0;
    crate::complete::lemma_built_brute_force(universe, s);
    lemma_bottom_up_items(t);
    assert forall|i: int| 0 <= i < t.top.len() implies t.bound.spec_hits(
        &(#[trigger] t.top[i]).spec_bounds(),
    ) by {
        assert(t.items()[i] == t.top[i]);
        assert(t.items().contains(t.top[i]));
        vstd::seq_lib::to_multiset_contains(t.items(), t.top[i]);
        vstd::seq_lib::to_multiset_contains(s, t.top[i]);
        let j = choose|j: int| 0 <= j < s.len() && s[j] == t.top[i];
        assert(universe.spec_hits(&s[j].spec_bounds()));
    }
    lemma_swept_brute_force(t);
}

} // verus!
