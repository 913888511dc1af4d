//! When the descent of an entity through the tree ends.
//!
//! An insertion follows the entity down for as long as it collides with the
//! region of one child only, and a node on its way splits when it is full.
//! Most descents end, at a leaf with room or at a node where the entity
//! collides with both children.  A descent does not end where split after
//! split hands all entities of a full node, and the new one, to one child
//! whose region is the region of the node again.  A region of extent one has
//! such a half: its second half.  So nine boxes of no extent that sit on the
//! far corner of a universe of some extent cannot be inserted one after the
//! other: the ninth would fall through regions of extent one for ever.
//!
//! The insertion is defined for the entities whose descent ends, and the
//! lemmas here say which these are.
use crate::boxes::BNum;
use crate::boxes::Bounds;
use crate::view::TreeView;
use crate::BoundBox;
use crate::Located;
use vstd::prelude::*;

verus! {

/// Where the descent of an entity ends, any number of levels that suffices
/// gives the same insertion.
pub proof fn lemma_placed_fuel<L: Located>(t: TreeView<L>, item: L, n: nat, m: nat)
    requires
        t.placed(item, n) is Some,
        t.placed(item, m) is Some,
    ensures
        t.placed(item, n) == t.placed(item, m),
    decreases n,
{
    let g = t.grown();
    match g.kids {
        None => {},
        Some(k) => {
            let (l, r) = *k;
            if crate::view::on_side(item, l.bound, r.bound) {
                lemma_placed_fuel(l, item, (n - 1) as nat, (m - 1) as nat);
            } else if crate::view::on_side(item, r.bound, l.bound) {
                lemma_placed_fuel(r, item, (n - 1) as nat, (m - 1) as nat);
            }
        },
    }
}

/// A descent that ends within `fuel` levels ends at some depth up to `fuel`.
pub proof fn lemma_ends_by<L: Located>(t: TreeView<L>, item: L, fuel: nat)
    requires
        t.placed(item, fuel) is Some,
    ensures
        exists|depth: nat| depth <= fuel && t.ends_at(item, depth),
    decreases fuel,
{
    if exists|sooner: nat| sooner < fuel && t.placed(item, sooner) is Some {
        let sooner = choose|sooner: nat| sooner < fuel && t.placed(item, sooner) is Some;
        lemma_ends_by(t, item, sooner);
        let depth = choose|depth: nat| depth <= sooner && t.ends_at(item, depth);
        assert(depth <= fuel && t.ends_at(item, depth));
    } else {
        assert(t.ends_at(item, fuel));
    }
}

/// Where the descent of an entity ends within `fuel` levels, the tree admits
/// the entity, the depth of its descent is at most `fuel`, and its insertion
/// is the one followed for `fuel` levels.
pub proof fn lemma_inserted<L: Located>(t: TreeView<L>, item: L, fuel: nat)
    requires
        t.placed(item, fuel) is Some,
    ensures
        t.admits(item),
        t.ends_at(item, t.depth_for(item)),
        t.depth_for(item) <= fuel,
        t.placed(item, fuel) == Some((t.inserted(item), t.reported(item))),
{
    lemma_ends_by(t, item, fuel);
    let depth = t.depth_for(item);
    assert(t.ends_at(item, depth));
    lemma_placed_fuel(t, item, fuel, depth);
}

/// The descent of an entity that a tree admits ends at the depth that
/// `depth_for` gives.
pub proof fn lemma_depth<L: Located>(t: TreeView<L>, item: L)
    requires
        t.admits(item),
    ensures
        t.ends_at(item, t.depth_for(item)),
        t.placed(item, t.depth_for(item)) == Some((t.inserted(item), t.reported(item))),
{
    let fuel = choose|fuel: nat| t.placed(item, fuel) is Some;
    lemma_inserted(t, item, fuel);
}

/// One step of a descent.  Where a tree admits an entity that collides with
/// the region of one child of the grown root only, that child admits the
/// entity, at a depth that is less by one; the insertion changes that child
/// and nothing else, and it finds what the root holds and then what the
/// insertion into the child finds.
pub proof fn lemma_descent_step<L: Located>(t: TreeView<L>, item: L)
    requires
        t.admits(item),
        t.grown().kids matches Some(k) && !crate::view::stays(item, k.0.bound, k.1.bound),
    ensures
        ({
            let g = t.grown();
            let (l, r) = *g.kids.unwrap();
            let found = g.top.filter(crate::view::meets(item.spec_bounds()));
            if crate::view::on_side(item, l.bound, r.bound) {
                &&& l.admits(item)
                &&& l.depth_for(item) + 1 == t.depth_for(item)
                &&& t.inserted(item) == (TreeView {
                    kids: Some(Box::new((l.inserted(item), r))),
                    ..g
                })
                &&& t.reported(item) == found + l.reported(item)
            } else {
                &&& r.admits(item)
                &&& r.depth_for(item) + 1 == t.depth_for(item)
                &&& t.inserted(item) == (TreeView {
                    kids: Some(Box::new((l, r.inserted(item)))),
                    ..g
                })
                &&& t.reported(item) == found + r.reported(item)
            }
        }),
{
    let g = t.grown();
    let (l, r) = *g.kids.unwrap();
    let depth = t.depth_for(item);
    lemma_depth(t, item);
    let child = if crate::view::on_side(item, l.bound, r.bound) {
        l
    } else {
        r
    };
    assert(depth > 0);
    let rest = (depth - 1) as nat;
    assert(child.placed(item, rest) is Some);
    lemma_inserted(child, item, rest);
    let sooner = child.depth_for(item);
    if sooner < rest {
        assert(t.placed(item, sooner + 1) is Some);
        assert(t.placed(item, sooner + 1) is None);
    }
}

/// A tree admits every entity whose descent ends at its root: the root is a
/// leaf with room left, or the entity collides with the regions of both
/// children of the grown root or with neither.
pub proof fn lemma_admits_at_root<L: Located>(t: TreeView<L>, item: L)
    requires
        t.grown().kids matches Some(k) ==> crate::view::stays(item, k.0.bound, k.1.bound),
    ensures
        t.admits(item),
        t.inserted(item) == t.grown().keeping(item),
{
    assert(t.placed(item, 0) is Some);
    lemma_inserted(t, item, 0);
}

/// In a tree of boxes over integers, the descent of a box that settles in the
/// region of the tree ends within as many levels as the extents of the region
/// add up to.
pub proof fn lemma_placed_inside<T: BNum, L: Located<Box = Bounds<T>>>(
    t: TreeView<L>,
    item: L,
    fuel: nat,
)
    requires
        t.wf(),
        t.bound@.proper(),
        item.spec_bounds().settles_in(t.bound),
        fuel >= t.bound@.w + t.bound@.h,
    ensures
        t.placed(item, fuel) is Some,
    decreases fuel,
{
    let g = t.grown();
    crate::kept::lemma_grown_wf(t);
    match g.kids {
        None => {},
        Some(k) => {
            let (l, r) = *k;
            g.bound.lemma_split_view();
            crate::rect::lemma_split_proper(g.bound@);
            crate::rect::lemma_split_descends(g.bound@, item.spec_bounds()@);
            if crate::view::on_side(item, l.bound, r.bound) {
                lemma_placed_inside(l, item, (fuel - 1) as nat);
            } else if crate::view::on_side(item, r.bound, l.bound) {
                lemma_placed_inside(r, item, (fuel - 1) as nat);
            }
        },
    }
}

/// A tree of boxes over integers admits every entity whose box settles in the
/// region of the tree.
pub proof fn lemma_admits_inside<T: BNum, L: Located<Box = Bounds<T>>>(t: TreeView<L>, item: L)
    requires
        t.wf(),
        t.bound@.proper(),
        item.spec_bounds().settles_in(t.bound),
    ensures
        t.admits(item),
{
    lemma_placed_inside(t, item, (t.bound@.w + t.bound@.h) as nat);
}

} // verus!
