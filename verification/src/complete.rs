//! Probes and insertions miss nothing: what they report is what exhaustive
//! testing reports.
use crate::boxes::BNum;
use crate::boxes::Bounds;
use crate::view::TreeView;
use crate::BoundBox;
use crate::Located;
use vstd::prelude::*;

verus! {

/// Where a tree is confined, each of its entities is.
pub proof fn lemma_confined_items<L: Located>(t: TreeView<L>, a: L::Box, b: L::Box)
    requires
        t.confined(a, b),
    ensures
        forall|i: int|
            0 <= i < t.items().len() ==> crate::view::on_side(#[trigger] t.items()[i], a, b),
    decreases t,
{
    match t.kids {
        None => {
            assert(t.items() == t.top);
        },
        Some(k) => {
            lemma_confined_items(k.0, a, b);
            lemma_confined_items(k.1, a, b);
            assert(t.items() == t.top + k.0.items() + k.1.items());
        },
    }
}

/// A probe of a tree none of whose entities collides with `q` finds nothing,
/// whichever regions `q` collides with.
pub proof fn lemma_probe_nothing<L: Located>(t: TreeView<L>, q: L::Box)
    requires
        forall|i: int|
            0 <= i < t.items().len() ==> !crate::view::touches(#[trigger] t.items()[i], q),
    ensures
        t.probe(q) == Seq::<L>::empty(),
        t.items().filter(crate::view::meets(q)) == Seq::<L>::empty(),
    decreases t,
{
    let hit = crate::view::meets::<L>(q);
    crate::seqs::lemma_filter_none(t.items(), hit);
    match t.kids {
        None => {},
        Some(k) => {
            let (l, r) = *k;
            let n = t.top.len() as int;
            let m = l.items().len() as int;
            assert forall|i: int| 0 <= i < t.top.len() implies !hit(#[trigger] t.top[i]) by {
                assert(t.items()[i] == t.top[i]);
            }
            assert forall|i: int| 0 <= i < l.items().len() implies !crate::view::touches(
                #[trigger] l.items()[i],
                q,
            ) by {
                assert(t.items()[n + i] == l.items()[i]);
            }
            assert forall|i: int| 0 <= i < r.items().len() implies !crate::view::touches(
                #[trigger] r.items()[i],
                q,
            ) by {
                assert(t.items()[n + m + i] == r.items()[i]);
            }
            crate::seqs::lemma_filter_none(t.top, hit);
            lemma_probe_nothing(l, q);
            lemma_probe_nothing(r, q);
        },
    }
}

/// None of the entities confined to one half of a proper region collides with
/// a box that collides with the region and not with that half.
pub proof fn lemma_half_clear<L: Located>(
    t: TreeView<L>,
    whole: L::Box,
    a: L::Box,
    b: L::Box,
    q: L::Box,
)
    requires
        whole.valid(),
        whole.proper(),
        whole.spec_split() == (a, b) || whole.spec_split() == (b, a),
        t.confined(a, b),
        whole.spec_hits(&q),
        !a.spec_hits(&q),
    ensures
        forall|i: int|
            0 <= i < t.items().len() ==> !crate::view::touches(#[trigger] t.items()[i], q),
{
    lemma_confined_items(t, a, b);
    assert forall|i: int| 0 <= i < t.items().len() implies !crate::view::touches(
        #[trigger] t.items()[i],
        q,
    ) by {
        whole.lemma_split_separates(&t.items()[i].spec_bounds(), &q);
    }
}

/// A probe finds every entity that collides with `q`, each once and in the
/// order of the tree, if `q` collides with the region of the tree and that
/// region is proper.
pub proof fn lemma_probe_all<L: Located>(t: TreeView<L>, q: L::Box)
    requires
        t.wf(),
        t.bound.proper(),
        t.bound.spec_hits(&q),
    ensures
        t.probe(q) == t.items().filter(crate::view::meets(q)),
    decreases t,
{
    let hit = crate::view::meets::<L>(q);
    match t.kids {
        None => {
            assert(t.top + Seq::<L>::empty() == t.top);
            assert(t.top.filter(hit) + Seq::<L>::empty() == t.top.filter(hit));
        },
        Some(k) => {
            let (l, r) = *k;
            t.bound.lemma_split_proper();
            Seq::filter_distributes_over_add(t.top, l.items(), hit);
            Seq::filter_distributes_over_add(t.top + l.items(), r.items(), hit);
            if l.bound.spec_hits(&q) {
                lemma_probe_all(l, q);
            } else {
                lemma_half_clear(l, t.bound, l.bound, r.bound, q);
                lemma_probe_nothing(l, q);
            }
            if r.bound.spec_hits(&q) {
                lemma_probe_all(r, q);
            } else {
                lemma_half_clear(r, t.bound, r.bound, l.bound, q);
                lemma_probe_nothing(r, q);
            }
            let x = t.top.filter(hit);
            let y = l.items().filter(hit);
            let z = r.items().filter(hit);
            assert(x + (y + z) == x + y + z);
        },
    }
}

/// An insertion finds every entity of the tree that collides with the new one,
/// each once, if the new one collides with the region of the tree and that
/// region is proper.
pub proof fn lemma_placed_all<L: Located>(t: TreeView<L>, item: L, fuel: nat)
    requires
        t.wf(),
        t.bound.proper(),
        t.bound.spec_hits(&item.spec_bounds()),
        t.placed(item, fuel) is Some,
    ensures
        t.placed(item, fuel).unwrap().1.to_multiset() == t.items().filter(
            crate::view::meets(item.spec_bounds()),
        ).to_multiset(),
    decreases fuel,
{
    broadcast use vstd::multiset::group_multiset_axioms;

    let q = item.spec_bounds();
    let hit = crate::view::meets::<L>(q);
    let g = t.grown();
    let found = g.top.filter(hit);
    let rep = t.placed(item, fuel).unwrap().1;
    crate::kept::lemma_grown_wf(t);
    crate::kept::lemma_grown_items(t);
    crate::seqs::lemma_filter_same(g.items(), t.items(), hit);
    match g.kids {
        None => {},
        Some(k) => {
            let (l, r) = *k;
            g.bound.lemma_split_proper();
            Seq::filter_distributes_over_add(g.top, l.items(), hit);
            Seq::filter_distributes_over_add(g.top + l.items(), r.items(), hit);
            let y = l.items().filter(hit);
            let z = r.items().filter(hit);
            vstd::seq_lib::lemma_multiset_commutative(found, y);
            vstd::seq_lib::lemma_multiset_commutative(found + y, z);
            if crate::view::on_side(item, l.bound, r.bound) {
                let below = l.placed(item, (fuel - 1) as nat).unwrap().1;
                lemma_placed_all(l, item, (fuel - 1) as nat);
                lemma_half_clear(r, g.bound, r.bound, l.bound, q);
                lemma_probe_nothing(r, q);
                vstd::seq_lib::lemma_multiset_commutative(found, below);
                assert(rep.to_multiset() =~= g.items().filter(hit).to_multiset());
            } else if crate::view::on_side(item, r.bound, l.bound) {
                let below = r.placed(item, (fuel - 1) as nat).unwrap().1;
                lemma_placed_all(r, item, (fuel - 1) as nat);
                lemma_half_clear(l, g.bound, l.bound, r.bound, q);
                lemma_probe_nothing(l, q);
                vstd::seq_lib::lemma_multiset_commutative(found, below);
                assert(rep.to_multiset() =~= g.items().filter(hit).to_multiset());
            } else {
                if l.bound.spec_hits(&q) {
                    lemma_probe_all(l, q);
                    lemma_probe_all(r, q);
                } else {
                    lemma_half_clear(l, g.bound, l.bound, r.bound, q);
                    lemma_probe_nothing(l, q);
                    lemma_half_clear(r, g.bound, r.bound, l.bound, q);
                    lemma_probe_nothing(r, q);
                }
                assert(rep == g.items().filter(hit));
            }
        },
    }
}

/// The insertion of an entity that collides with the region of the tree, that
/// region being proper, reports every entity of the tree that collides with
/// the new one, once and no other; it adds the new entity to the tree and
/// leaves the tree well formed.
pub proof fn lemma_reported_all<L: Located>(t: TreeView<L>, item: L)
    requires
        t.wf(),
        t.bound.proper(),
        item.spec_bounds().valid(),
        t.bound.spec_hits(&item.spec_bounds()),
        t.admits(item),
    ensures
        t.reported(item).to_multiset() == t.items().filter(
            crate::view::meets(item.spec_bounds()),
        ).to_multiset(),
        t.inserted(item).items().to_multiset() == t.items().to_multiset().insert(item),
        t.inserted(item).wf(),
        t.inserted(item).bound == t.bound,
{
    let fuel = t.depth_for(item);
    crate::descent::lemma_depth(t, item);
    lemma_placed_all(t, item, fuel);
    crate::kept::lemma_placed_items(t, item, fuel);
    crate::kept::lemma_placed_wf(t, item, fuel);
}

/// Insertion into a tree finds what exhaustive testing finds.
///
/// Let entities be inserted one after the other into an empty tree over a
/// proper region, each with a valid box that collides with that region, and
/// let the tree admit each when its turn comes.  Then the pairs that the
/// insertions report are, as a multiset, the pairs that exhaustive testing of
/// the same list reports; the tree holds the entities of the list and no
/// others; and it is well formed.
pub proof fn lemma_built_brute_force<L: Located>(universe: L::Box, s: Seq<L>)
    requires
        universe.valid(),
        universe.proper(),
        forall|i: int|
            0 <= i < s.len() ==> (#[trigger] s[i]).spec_bounds().valid() && universe.spec_hits(
                &s[i].spec_bounds(),
            ),
        TreeView::built(universe, s) is Some,
    ensures
        TreeView::built(universe, s).unwrap().1.to_multiset() == crate::view::brute_force(
            s,
        ).to_multiset(),
        TreeView::built(universe, s).unwrap().0.items().to_multiset() == s.to_multiset(),
        TreeView::built(universe, s).unwrap().0.wf(),
        TreeView::built(universe, s).unwrap().0.bound == universe,
    decreases s.len(),
{
    broadcast use vstd::multiset::group_multiset_axioms;

    if s.len() == 0 {
        assert(TreeView::<L>::leaf(universe, Seq::empty()).items() == Seq::<L>::empty());
        assert(s == Seq::<L>::empty());
    } else {
        let front = s.drop_last();
        let item = s.last();
        let q = item.spec_bounds();
        let hit = crate::view::meets::<L>(q);
        let (t, pairs) = TreeView::built(universe, front).unwrap();
        lemma_built_brute_force(universe, front);
        lemma_reported_all(t, item);
        crate::seqs::lemma_filter_same(t.items(), front, hit);
        crate::seqs::lemma_map_same(
            t.reported(item),
            front.filter(hit),
            crate::view::pair_with(item),
        );
        vstd::seq_lib::lemma_multiset_commutative(
            pairs,
            crate::view::pairs_with(t.reported(item), item),
        );
        vstd::seq_lib::lemma_multiset_commutative(
            crate::view::brute_force(front),
            crate::view::pairs_with(front.filter(hit), item),
        );
        assert(s == front.push(item));
        vstd::seq_lib::to_multiset_build(front, item);
    }
}

/// Entities whose boxes are valid and settle in a proper region can be
/// inserted one after the other into an empty tree over that region: the tree
/// admits each when its turn comes.
pub proof fn lemma_built_inside<T: BNum, L: Located<Box = Bounds<T>>>(
    universe: Bounds<T>,
    s: Seq<L>,
)
    requires
        universe.valid(),
        universe.proper(),
        forall|i: int|
            0 <= i < s.len() ==> (#[trigger] s[i]).spec_bounds().valid()
                && s[i].spec_bounds().settles_in(universe),
    ensures
        TreeView::<L>::built(universe, s) is Some,
    decreases s.len(),
{
    if s.len() > 0 {
        let front = s.drop_last();
        assert forall|i: int| 0 <= i < front.len() implies (#[trigger] front[i]).spec_bounds(
        ).valid() && front[i].spec_bounds().settles_in(universe) by {
            assert(front[i] == s[i]);
        }
        lemma_built_inside(universe, front);
        lemma_built_brute_force(universe, front);
        crate::descent::lemma_admits_inside(
            TreeView::<L>::built(universe, front).unwrap().0,
            s.last(),
        );
    }
}

/// For boxes over integers: entities whose boxes are valid and settle in a
/// proper region can be inserted one after the other into an empty tree over
/// that region, and the pairs that the insertions report are, as a multiset,
/// the pairs that exhaustive testing of the same list reports.
pub proof fn lemma_settled_brute_force<T: BNum, L: Located<Box = Bounds<T>>>(
    universe: Bounds<T>,
    s: Seq<L>,
)
    requires
        universe.valid(),
        universe.proper(),
        forall|i: int|
            0 <= i < s.len() ==> (#[trigger] s[i]).spec_bounds().valid()
                && s[i].spec_bounds().settles_in(universe),
    ensures
        TreeView::<L>::built(universe, s) is Some,
        TreeView::<L>::built(universe, s).unwrap().1.to_multiset() == crate::view::brute_force(
            s,
        ).to_multiset(),
{
    lemma_built_inside(universe, s);
    lemma_built_brute_force(universe, s);
}

} // verus!
