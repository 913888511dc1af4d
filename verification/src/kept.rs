//! What growth and insertion keep: the invariant of the tree, the confinement
//! of its entities, and the entities themselves.
use crate::view::TreeView;
use crate::view::SPLIT_AT;
use crate::BoundBox;
use crate::Located;
use vstd::prelude::*;

verus! {

/// A leaf whose entities all collide with `a` and not with `b` is confined to
/// `a`.
pub proof fn lemma_side_confined<L: Located>(top: Seq<L>, a: L::Box, b: L::Box)
    ensures
        TreeView::<L>::leaf(a, top.filter(crate::view::only(a, b))).confined(a, b),
{
    let f = top.filter(crate::view::only(a, b));
    assert forall|i: int| 0 <= i < f.len() implies crate::view::on_side(#[trigger] f[i], a, b) by {
        crate::seqs::lemma_filter_member(top, crate::view::only(a, b), i);
    }
}

/// Growth keeps a tree well formed.
pub proof fn lemma_grown_wf<L: Located>(t: TreeView<L>)
    requires
        t.wf(),
    ensures
        t.grown().wf(),
        t.grown().bound == t.bound,
{
    if t.kids is None && t.top.len() >= SPLIT_AT {
        let (a, b) = t.bound.spec_split();
        let g = t.grown();
        let k = g.kids.unwrap();
        t.bound.lemma_split_valid();
        lemma_side_confined(t.top, a, b);
        lemma_side_confined(t.top, b, a);
        t.top.lemma_filter_len(crate::view::only(a, b));
        t.top.lemma_filter_len(crate::view::only(b, a));
        assert forall|i: int| 0 <= i < g.top.len() implies (#[trigger] g.top[i]).spec_bounds(
        ).valid() && crate::view::stays(g.top[i], a, b) by {
            crate::seqs::lemma_filter_member(t.top, crate::view::staying(a, b), i);
        }
        assert forall|i: int| 0 <= i < k.0.top.len() implies (#[trigger] k.0.top[i]).spec_bounds(
        ).valid() by {
            crate::seqs::lemma_filter_member(t.top, crate::view::only(a, b), i);
        }
        assert forall|i: int| 0 <= i < k.1.top.len() implies (#[trigger] k.1.top[i]).spec_bounds(
        ).valid() by {
            crate::seqs::lemma_filter_member(t.top, crate::view::only(b, a), i);
        }
        assert(k.0.wf());
        assert(k.1.wf());
    }
}

/// Growth keeps the entities of a tree where they are confined.
pub proof fn lemma_grown_confined<L: Located>(t: TreeView<L>, a: L::Box, b: L::Box)
    requires
        t.confined(a, b),
    ensures
        t.grown().confined(a, b),
{
    if t.kids is None && t.top.len() >= SPLIT_AT {
        let (c, d) = t.bound.spec_split();
        let g = t.grown();
        let k = g.kids.unwrap();
        assert forall|i: int| 0 <= i < g.top.len() implies crate::view::on_side(
            #[trigger] g.top[i],
            a,
            b,
        ) by {
            crate::seqs::lemma_filter_member(t.top, crate::view::staying(c, d), i);
        }
        assert forall|i: int| 0 <= i < k.0.top.len() implies crate::view::on_side(
            #[trigger] k.0.top[i],
            a,
            b,
        ) by {
            crate::seqs::lemma_filter_member(t.top, crate::view::only(c, d), i);
        }
        assert forall|i: int| 0 <= i < k.1.top.len() implies crate::view::on_side(
            #[trigger] k.1.top[i],
            a,
            b,
        ) by {
            crate::seqs::lemma_filter_member(t.top, crate::view::only(d, c), i);
        }
        assert(k.0.confined(a, b));
        assert(k.1.confined(a, b));
    }
}

/// An insertion keeps the entities of a tree where they are confined, if the
/// new entity belongs there too.
pub proof fn lemma_placed_confined<L: Located>(
    t: TreeView<L>,
    item: L,
    fuel: nat,
    a: L::Box,
    b: L::Box,
)
    requires
        t.confined(a, b),
        crate::view::on_side(item, a, b),
        t.placed(item, fuel) is Some,
    ensures
        t.placed(item, fuel).unwrap().0.confined(a, b),
    decreases fuel,
{
    let g = t.grown();
    lemma_grown_confined(t, a, b);
    match g.kids {
        None => {},
        Some(k) => {
            let (l, r) = *k;
            if crate::view::on_side(item, l.bound, r.bound) {
                lemma_placed_confined(l, item, (fuel - 1) as nat, a, b);
            } else if crate::view::on_side(item, r.bound, l.bound) {
                lemma_placed_confined(r, item, (fuel - 1) as nat, a, b);
            }
        },
    }
}

/// An insertion keeps a tree well formed and leaves its region as it is.
pub proof fn lemma_placed_wf<L: Located>(t: TreeView<L>, item: L, fuel: nat)
    requires
        t.wf(),
        item.spec_bounds().valid(),
        t.placed(item, fuel) is Some,
    ensures
        t.placed(item, fuel).unwrap().0.wf(),
        t.placed(item, fuel).unwrap().0.bound == t.bound,
    decreases fuel,
{
    let g = t.grown();
    lemma_grown_wf(t);
    match g.kids {
        None => {},
        Some(k) => {
            let (l, r) = *k;
            if crate::view::on_side(item, l.bound, r.bound) {
                lemma_placed_wf(l, item, (fuel - 1) as nat);
                lemma_placed_confined(l, item, (fuel - 1) as nat, l.bound, r.bound);
            } else if crate::view::on_side(item, r.bound, l.bound) {
                lemma_placed_wf(r, item, (fuel - 1) as nat);
                lemma_placed_confined(r, item, (fuel - 1) as nat, r.bound, l.bound);
            }
        },
    }
}

/// Children stay: a node that has split is neither changed by growth nor
/// brought back to a leaf by an insertion, and its children keep their
/// regions.
pub proof fn lemma_children_stay<L: Located>(t: TreeView<L>, item: L, fuel: nat)
    requires
        t.kids is Some,
        t.placed(item, fuel) is Some,
    ensures
        t.grown() == t,
        t.placed(item, fuel).unwrap().0.kids is Some,
        t.placed(item, fuel).unwrap().0.kids.unwrap().0.bound == t.kids.unwrap().0.bound,
        t.placed(item, fuel).unwrap().0.kids.unwrap().1.bound == t.kids.unwrap().1.bound,
{
    let (l, r) = *t.kids.unwrap();
    if crate::view::on_side(item, l.bound, r.bound) {
        lemma_placed_bound(l, item, (fuel - 1) as nat);
    } else if crate::view::on_side(item, r.bound, l.bound) {
        lemma_placed_bound(r, item, (fuel - 1) as nat);
    }
}

/// An insertion leaves the region of the tree as it is.
pub proof fn lemma_placed_bound<L: Located>(t: TreeView<L>, item: L, fuel: nat)
    requires
        t.placed(item, fuel) is Some,
    ensures
        t.placed(item, fuel).unwrap().0.bound == t.bound,
{
}

/// Growth is idempotent: a second growth step changes nothing.
pub proof fn lemma_grown_twice<L: Located>(t: TreeView<L>)
    ensures
        t.grown().grown() == t.grown(),
{
}

/// Growth moves entities and neither adds nor drops one.
pub proof fn lemma_grown_items<L: Located>(t: TreeView<L>)
    ensures
        t.grown().items().to_multiset() == t.items().to_multiset(),
{
    if t.kids is None && t.top.len() >= SPLIT_AT {
        let (a, b) = t.bound.spec_split();
        let k = t.grown().kids.unwrap();
        assert(k.0.items() == t.top.filter(crate::view::only(a, b)));
        assert(k.1.items() == t.top.filter(crate::view::only(b, a)));
        assert(t.items() == t.top);
        crate::seqs::lemma_filter_parts(
            t.top,
            crate::view::staying(a, b),
            crate::view::only(a, b),
            crate::view::only(b, a),
        );
    }
}

/// An insertion adds the new entity to those of the tree and neither adds nor
/// drops another.
pub proof fn lemma_placed_items<L: Located>(t: TreeView<L>, item: L, fuel: nat)
    requires
        t.placed(item, fuel) is Some,
    ensures
        t.placed(item, fuel).unwrap().0.items().to_multiset() == t.items().to_multiset().insert(
            item,
        ),
    decreases fuel,
{
    broadcast use vstd::multiset::group_multiset_axioms;

    let g = t.grown();
    let after = t.placed(item, fuel).unwrap().0;
    lemma_grown_items(t);
    match g.kids {
        None => {
            vstd::seq_lib::to_multiset_build(g.top, item);
        },
        Some(k) => {
            let (l, r) = *k;
            vstd::seq_lib::lemma_multiset_commutative(g.top, l.items());
            vstd::seq_lib::lemma_multiset_commutative(g.top + l.items(), r.items());
            if crate::view::on_side(item, l.bound, r.bound) {
                let l2 = l.placed(item, (fuel - 1) as nat).unwrap().0;
                lemma_placed_items(l, item, (fuel - 1) as nat);
                vstd::seq_lib::lemma_multiset_commutative(g.top, l2.items());
                vstd::seq_lib::lemma_multiset_commutative(g.top + l2.items(), r.items());
                assert(after.items().to_multiset() =~= g.items().to_multiset().insert(item));
            } else if crate::view::on_side(item, r.bound, l.bound) {
                let r2 = r.placed(item, (fuel - 1) as nat).unwrap().0;
                lemma_placed_items(r, item, (fuel - 1) as nat);
                vstd::seq_lib::lemma_multiset_commutative(g.top + l.items(), r2.items());
                assert(after.items().to_multiset() =~= g.items().to_multiset().insert(item));
            } else {
                vstd::seq_lib::to_multiset_build(g.top, item);
                vstd::seq_lib::lemma_multiset_commutative(g.top.push(item), l.items());
                vstd::seq_lib::lemma_multiset_commutative(
                    g.top.push(item) + l.items(),
                    r.items(),
                );
                assert(after.items().to_multiset() =~= g.items().to_multiset().insert(item));
            }
        },
    }
}

} // verus!
