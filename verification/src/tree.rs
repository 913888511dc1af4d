//! The partition tree.
use crate::view::TreeView;
use crate::view::SPLIT_AT;
use crate::BoundBox;
use crate::Located;
use std::fmt::Debug;
use vstd::prelude::*;

verus! {

/// A binary partition of a region of the plane that holds entities and finds
/// the collisions among them.
///
/// Its view is the [`TreeView`] of the same shape.
pub struct LocalTree<L: Located + Debug> {
    bound: L::Box,
    top: Vec<L>,
    children: Option<Box<(LocalTree<L>, LocalTree<L>)>>,
}

impl<L: Located + Debug> View for LocalTree<L> {
    type V = TreeView<L>;

    closed spec fn view(&self) -> TreeView<L>
        decreases self,
    {
        TreeView {
            bound: self.bound,
            top: self.top@,
            kids: match self.children {
                None => None,
                Some(k) => Some(Box::new((k.0.view(), k.1.view()))),
            },
        }
    }
}

impl<L: Located + Debug> LocalTree<L> {
    /// An empty tree over the region `bound`: a leaf that holds nothing.  It is
    /// well formed if `bound` is valid.
    pub fn new(bound: L::Box) -> (r: Self)
        ensures
            r@ == TreeView::<L>::leaf(bound, Seq::empty()),
            bound.valid() ==> r@.wf(),
    {
        LocalTree { bound, top: Vec::new(), children: None }
    }

    /// Whether the node has split: it then has two children, and none
    /// otherwise.
    pub fn has_children(&self) -> (r: bool)
        ensures
            r == (self@.kids is Some),
    {
        self.children.is_some()
    }

    /// The lazy growth step: splits a leaf that holds `SPLIT_AT` entities or
    /// more, and leaves any other node as it is.
    ///
    /// The two children get the halves of the region.  Each entity that
    /// collides with one half only moves to that child, the others stay, and
    /// all keep their order.
    pub fn grow_children(&mut self)
        requires
            old(self)@.wf(),
        ensures
            final(self)@ == old(self)@.grown(),
            final(self)@.wf(),
    {
        if let Some(_) = self.children {
            return ;
        }
        if self.top.len() < SPLIT_AT {
            return ;
        }
        let ghost before = self@;
        let (l, r) = self.bound.split();
        let ghost (a, b) = (l, r);
        proof {
            self.bound.lemma_split_valid();
        }
        let (mut l, mut r) = (Self::new(l), Self::new(r));
        let mut newtop = Vec::new();
        std::mem::swap(&mut newtop, &mut self.top);
        let ghost all = newtop@;
        let ghost mut n = 0int;
        for v in it: newtop
            invariant
                it.seq() == all,
                n == it.index(),
                self.bound == before.bound,
                self.children is None,
                l.bound == a,
                r.bound == b,
                l.children is None,
                r.children is None,
                a.valid(),
                b.valid(),
                forall|i: int| 0 <= i < all.len() ==> (#[trigger] all[i]).spec_bounds().valid(),
                self.top@ == all.take(n).filter(crate::view::staying(a, b)),
                l.top@ == all.take(n).filter(crate::view::only(a, b)),
                r.top@ == all.take(n).filter(crate::view::only(b, a)),
        {
            proof {
                crate::seqs::lemma_filter_next(all, crate::view::staying(a, b), n);
                crate::seqs::lemma_filter_next(all, crate::view::only(a, b), n);
                crate::seqs::lemma_filter_next(all, crate::view::only(b, a), n);
                n = n + 1;
            }
            let ib = v.bounds();
            match (l.bound.hits(&ib), r.bound.hits(&ib)) {
                (true, false) => l.top.push(v),
                (false, true) => r.top.push(v),
                _ => self.top.push(v),
            }
        }
        proof {
            assert(n == all.len());
            assert(all.take(n) == all);
            assert(l@ == TreeView::<L>::leaf(a, all.filter(crate::view::only(a, b))));
            assert(r@ == TreeView::<L>::leaf(b, all.filter(crate::view::only(b, a))));
        }
        self.children = Some(Box::new((l, r)));
        proof {
            assert(self@.top == before.grown().top);
            assert(self@.kids == before.grown().kids);
            crate::kept::lemma_grown_wf(before);
        }
    }

    /// Reports those of the first `n` entities kept at this node that collide
    /// with `item`, whose box is `ib`, in their order.
    fn check_first(&self, n: usize, item: &L, ib: &L::Box, v: &mut Vec<(L::ID, L::ID)>)
        requires
            self@.wf(),
            *ib == item.spec_bounds(),
            ib.valid(),
            n <= self@.top.len(),
        ensures
            final(v)@ == old(v)@ + crate::view::pairs_with(
                self@.top.take(n as int).filter(crate::view::meets(*ib)),
                *item,
            ),
    {
        let ghost first = self.top@.take(n as int);
        let ghost hit = crate::view::meets::<L>(*ib);
        let ghost pair = crate::view::pair_with(*item);
        let mut i: usize = 0;
        while i < n
            invariant
                0 <= i <= n <= self.top.len(),
                self@.wf(),
                first == self.top@.take(n as int),
                ib.valid(),
                hit == crate::view::meets::<L>(*ib),
                pair == crate::view::pair_with(*item),
                v@ == old(v)@ + first.take(i as int).filter(hit).map_values(pair),
            decreases n - i,
        {
            let t = &self.top[i];
            proof {
                crate::seqs::lemma_filter_next(first, hit, i as int);
                assert(self@.top[i as int].spec_bounds().valid());
            }
            if t.bounds().hits(ib) {
                let ghost found = first.take(i as int).filter(hit);
                v.push((t.id(), item.id()));
                assert(found.push(*t).map_values(pair) == found.map_values(pair).push(pair(*t)));
            }
            i += 1;
        }
        assert(first.take(i as int) == first);
    }

    /// Reports the entities kept at this node that collide with `item`, whose
    /// box is `ib`, in their order.
    fn check_top(&self, item: &L, ib: &L::Box, v: &mut Vec<(L::ID, L::ID)>)
        requires
            self@.wf(),
            *ib == item.spec_bounds(),
            ib.valid(),
        ensures
            final(v)@ == old(v)@ + crate::view::pairs_with(
                self@.top.filter(crate::view::meets(*ib)),
                *item,
            ),
    {
        assert(self.top@.take(self.top.len() as int) == self.top@);
        self.check_first(self.top.len(), item, ib, v);
    }

    /// A probe that changes nothing.
    ///
    /// Reports, as pairs of identities with that of `item` second, the entities
    /// that collide with `item` and are kept at this node or found by the probe
    /// of a child whose region collides with `item`.  Where `item` collides
    /// with the region of the tree, and that region is proper, these are all
    /// entities of the tree that collide with `item`
    /// (`complete::lemma_probe_all`).
    pub fn check_hits(&self, item: &L, v: &mut Vec<(L::ID, L::ID)>)
        requires
            self@.wf(),
            item.spec_bounds().valid(),
        ensures
            final(v)@ == old(v)@ + crate::view::pairs_with(
                self@.probe(item.spec_bounds()),
                *item,
            ),
        decreases self,
    {
        let ib = item.bounds();
        let ghost pair = crate::view::pair_with(*item);
        let ghost found = self@.top.filter(crate::view::meets(ib));
        self.check_top(item, &ib, v);
        if let Some(b) = &self.children {
            let (l, r) = (&b.0, &b.1);
            assert(self@.kids == Some(Box::new((l@, r@))));
            assert(l@.wf() && r@.wf());
            let ghost below_l = if l.bound.spec_hits(&ib) {
                l@.probe(ib)
            } else {
                Seq::empty()
            };
            let ghost below_r = if r.bound.spec_hits(&ib) {
                r@.probe(ib)
            } else {
                Seq::empty()
            };
            if l.bound.hits(&ib) {
                l.check_hits(item, v);
            }
            if r.bound.hits(&ib) {
                r.check_hits(item, v);
            }
            proof {
                crate::seqs::lemma_map_add(found, below_l, pair);
                crate::seqs::lemma_map_add(found + below_l, below_r, pair);
                assert(self@.probe(ib) == found + (below_l + below_r));
                assert(found + (below_l + below_r) == found + below_l + below_r);
            }
        } else {
            assert(self@.probe(ib) == found + Seq::<L>::empty());
            assert(found + Seq::<L>::empty() == found);
        }
    }

    /// Inserts `item` and reports, as pairs of identities with that of `item`
    /// second, the entities already in the tree that the insertion finds to
    /// collide with it.
    ///
    /// The node grows first if it is a full leaf.  The entities kept at it that
    /// collide with `item` are reported.  Where `item` collides with the region
    /// of one child only, the insertion goes on in that child; otherwise both
    /// children, if there are any, are probed, and `item` is kept at the node.
    ///
    /// The tree has to admit `item`: its descent has to end.  A leaf with room
    /// admits every entity, and a tree of boxes over integers admits every box
    /// that settles in its region (`descent::lemma_admits_at_root`,
    /// `descent::lemma_admits_inside`).  Where `item` collides with the region
    /// of the tree, and that region is proper, every entity of the tree that
    /// collides with `item` is reported, once (`complete::lemma_reported_all`).
    pub fn add_item(&mut self, item: L, v: &mut Vec<(L::ID, L::ID)>)
        requires
            old(self)@.wf(),
            item.spec_bounds().valid(),
            old(self)@.admits(item),
        ensures
            final(self)@ == old(self)@.inserted(item),
            final(self)@.wf(),
            final(v)@ == old(v)@ + crate::view::pairs_with(old(self)@.reported(item), item),
        decreases old(self)@.depth_for(item),
    {
        let ghost before = self@;
        let ghost pair = crate::view::pair_with(item);
        proof {
            crate::descent::lemma_depth(before, item);
            crate::kept::lemma_placed_wf(before, item, before.depth_for(item));
        }
        self.grow_children();

        let ib = item.bounds();
        let ghost found = self@.top.filter(crate::view::meets(ib));
        self.check_top(&item, &ib, v);
        match &mut self.children {
            Some(b) => {
                let ghost (l0, r0) = (b.0@, b.1@);
                assert(before.grown().kids == Some(Box::new((l0, r0))));
                assert(l0.wf() && r0.wf());
                match (b.0.bound.hits(&ib), b.1.bound.hits(&ib)) {
                    (true, false) => {
                        proof {
                            crate::descent::lemma_descent_step(before, item);
                            crate::seqs::lemma_map_add(found, l0.reported(item), pair);
                        }
                        b.0.add_item(item, v)
                    },
                    (false, true) => {
                        proof {
                            crate::descent::lemma_descent_step(before, item);
                            crate::seqs::lemma_map_add(found, r0.reported(item), pair);
                        }
                        b.1.add_item(item, v)
                    },
                    _ => {
                        b.0.check_hits(&item, v);
                        b.1.check_hits(&item, v);
                        self.top.push(item);
                        proof {
                            crate::seqs::lemma_map_add(found, l0.probe(ib), pair);
                            crate::seqs::lemma_map_add(found + l0.probe(ib), r0.probe(ib), pair);
                        }
                    },
                }
            },
            None => self.top.push(item),
        }
    }

    /// A sweep of the whole tree.
    ///
    /// Reports the collisions among the entities kept at this node, then those
    /// between each of them and the entities below, then those that the sweep
    /// of each child finds.  In a tree built by insertions of entities that
    /// collide with its region, and that region proper, these are all
    /// collisions among the entities of the tree, each once
    /// (`sweep::lemma_swept_brute_force`).
    pub fn for_each_collision(&self, v: &mut Vec<(L::ID, L::ID)>)
        requires
            self@.wf(),
        ensures
            final(v)@ == old(v)@ + self@.swept(),
        decreases self,
    {
        let ghost top = self.top@;
        let mut j: usize = 0;
        while j < self.top.len()
            invariant
                0 <= j <= self.top.len(),
                self@.wf(),
                top == self.top@,
                v@ == old(v)@ + crate::view::brute_force(top.take(j as int)),
            decreases self.top.len() - j,
        {
            let t = &self.top[j];
            assert(top.take(j + 1).drop_last() == top.take(j as int));
            assert(self@.top[j as int].spec_bounds().valid());
            let ib = t.bounds();
            self.check_first(j, t, &ib, v);
            j += 1;
        }
        assert(top.take(j as int) == top);
        let ghost among = v@;
        if let Some(b) = &self.children {
            let (l, r) = (&b.0, &b.1);
            assert(self@.kids == Some(Box::new((l@, r@))));
            assert(l@.wf() && r@.wf());
            let mut i: usize = 0;
            while i < self.top.len()
                invariant
                    0 <= i <= self.top.len(),
                    self@.wf(),
                    l@.wf(),
                    r@.wf(),
                    top == self.top@,
                    v@ == among + TreeView::crossed(top.take(i as int), l@, r@),
                decreases self.top.len() - i,
            {
                let t = &self.top[i];
                let ghost q = t.spec_bounds();
                assert(top.take(i + 1).drop_last() == top.take(i as int));
                assert(self@.top[i as int].spec_bounds().valid());
                l.check_hits(t, v);
                r.check_hits(t, v);
                proof {
                    crate::seqs::lemma_map_add(
                        l@.probe(q),
                        r@.probe(q),
                        crate::view::pair_with(*t),
                    );
                }
                i += 1;
            }
            assert(top.take(i as int) == top);
            l.for_each_collision(v);
            r.for_each_collision(v);
        }
    }
}

} // verus!
