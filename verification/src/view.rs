//! The mathematical model of a partition tree.
//!
//! A [`TreeView`] is a tree as a value: a region, the entities kept at the node
//! in the order they came, and no children or two.  What the operations of a
//! tree do is defined here as functions on such values.
use crate::BoundBox;
use crate::Located;
use vstd::prelude::*;

verus! {

/// The number of entities at which a leaf splits.
pub const SPLIT_AT: usize = 8;

/// `t` collides with `q`: the test that an entity already held is put to when
/// `q` is the box of a new one.
pub open spec fn touches<L: Located>(t: L, q: L::Box) -> bool {
    t.spec_bounds().spec_hits(&q)
}

/// `t` collides with region `a` and not with region `b`.
pub open spec fn on_side<L: Located>(t: L, a: L::Box, b: L::Box) -> bool {
    a.spec_hits(&t.spec_bounds()) && !b.spec_hits(&t.spec_bounds())
}

/// `t` collides with both regions or with neither: it stays at a node whose
/// children have these regions.
pub open spec fn stays<L: Located>(t: L, a: L::Box, b: L::Box) -> bool {
    a.spec_hits(&t.spec_bounds()) == b.spec_hits(&t.spec_bounds())
}

/// The entities that collide with `q`.
pub open spec fn meets<L: Located>(q: L::Box) -> spec_fn(L) -> bool {
    |t: L| touches(t, q)
}

/// The entities that collide with `a` and not with `b`.
pub open spec fn only<L: Located>(a: L::Box, b: L::Box) -> spec_fn(L) -> bool {
    |t: L| on_side(t, a, b)
}

/// The entities that collide with both of `a` and `b` or with neither.
pub open spec fn staying<L: Located>(a: L::Box, b: L::Box) -> spec_fn(L) -> bool {
    |t: L| stays(t, a, b)
}

/// The pair that is reported when `t`, already held, collides with `item`.
pub open spec fn pair_with<L: Located>(item: L) -> spec_fn(L) -> (L::ID, L::ID) {
    |t: L| (t.spec_id(), item.spec_id())
}

/// The pairs reported for `item` and the entities `found`, in their order.
pub open spec fn pairs_with<L: Located>(found: Seq<L>, item: L) -> Seq<(L::ID, L::ID)> {
    found.map_values(pair_with(item))
}

/// The pairs that exhaustive testing reports for a list of entities: each
/// entity, in the order of the list, is tested against all that come before
/// it, in their order.
pub open spec fn brute_force<L: Located>(s: Seq<L>) -> Seq<(L::ID, L::ID)>
    decreases s.len(),
{
    if s.len() == 0 {
        Seq::empty()
    } else {
        brute_force(s.drop_last()) + pairs_with(
            s.drop_last().filter(meets(s.last().spec_bounds())),
            s.last(),
        )
    }
}

/// The pairs that testing each entity of `s`, in the order of `s`, against all
/// entities of `r`, in their order, reports.
pub open spec fn cross_force<L: Located>(r: Seq<L>, s: Seq<L>) -> Seq<(L::ID, L::ID)>
    decreases s.len(),
{
    if s.len() == 0 {
        Seq::empty()
    } else {
        cross_force(r, s.drop_last()) + pairs_with(
            r.filter(meets(s.last().spec_bounds())),
            s.last(),
        )
    }
}

/// A partition tree as a mathematical value.
pub struct TreeView<L: Located> {
    /// The region of the node.
    pub bound: L::Box,
    /// The entities kept at the node, in the order they came.
    pub top: Seq<L>,
    /// The two children, once the node has split.
    pub kids: Option<Box<(TreeView<L>, TreeView<L>)>>,
}

impl<L: Located> TreeView<L> {
    /// A node without children.
    pub open spec fn leaf(bound: L::Box, top: Seq<L>) -> Self {
        TreeView { bound, top, kids: None }
    }

    /// All entities of the tree: those of the node, then those of the first
    /// child, then those of the second.
    pub open spec fn items(self) -> Seq<L>
        decreases self,
    {
        match self.kids {
            None => self.top,
            Some(k) => self.top + k.0.items() + k.1.items(),
        }
    }

    /// All entities of the tree, those below a node before those kept at it:
    /// those of the first child, then those of the second, then those of the
    /// node.
    pub open spec fn bottom_up(self) -> Seq<L>
        decreases self,
    {
        match self.kids {
            None => self.top,
            Some(k) => k.0.bottom_up() + k.1.bottom_up() + self.top,
        }
    }

    /// Every entity of the tree collides with `a` and not with `b`.
    pub open spec fn confined(self, a: L::Box, b: L::Box) -> bool
        decreases self,
    {
        &&& forall|i: int| 0 <= i < self.top.len() ==> on_side(#[trigger] self.top[i], a, b)
        &&& match self.kids {
            None => true,
            Some(k) => k.0.confined(a, b) && k.1.confined(a, b),
        }
    }

    /// The invariant of a tree.
    ///
    /// Every region and every box in the tree is valid.  A leaf holds at most
    /// `SPLIT_AT` entities.  The children of a node have the halves of its
    /// region; every entity below a child collides with that child's region and
    /// not with the other's; every entity kept at the node collides with both
    /// or with neither.
    pub open spec fn wf(self) -> bool
        decreases self,
    {
        &&& self.bound.valid()
        &&& forall|i: int|
            0 <= i < self.top.len() ==> (#[trigger] self.top[i]).spec_bounds().valid()
        &&& match self.kids {
            None => self.top.len() <= SPLIT_AT,
            Some(k) => {
                &&& (k.0.bound, k.1.bound) == self.bound.spec_split()
                &&& k.0.wf()
                &&& k.1.wf()
                &&& k.0.confined(k.0.bound, k.1.bound)
                &&& k.1.confined(k.1.bound, k.0.bound)
                &&& forall|i: int|
                    0 <= i < self.top.len() ==> stays(
                        #[trigger] self.top[i],
                        k.0.bound,
                        k.1.bound,
                    )
            },
        }
    }

    /// The tree after the lazy growth step.
    ///
    /// A leaf that holds `SPLIT_AT` entities or more gets two children with the
    /// halves of its region.  Each entity that collides with one half only
    /// moves to that child; the others stay.  Any other tree is left as it is.
    pub open spec fn grown(self) -> Self {
        if self.kids is Some || self.top.len() < SPLIT_AT {
            self
        } else {
            let (a, b) = self.bound.spec_split();
            TreeView {
                bound: self.bound,
                top: self.top.filter(staying(a, b)),
                kids: Some(
                    Box::new(
                        (
                            Self::leaf(a, self.top.filter(only(a, b))),
                            Self::leaf(b, self.top.filter(only(b, a))),
                        ),
                    ),
                ),
            }
        }
    }

    /// The entities that a probe with the box `q` finds, in the order it finds
    /// them: those of the node that collide with `q`, then what the probe finds
    /// in each child whose region collides with `q`.
    pub open spec fn probe(self, q: L::Box) -> Seq<L>
        decreases self,
    {
        self.top.filter(meets(q)) + match self.kids {
            None => Seq::empty(),
            Some(k) => {
                (if k.0.bound.spec_hits(&q) {
                    k.0.probe(q)
                } else {
                    Seq::empty()
                }) + (if k.1.bound.spec_hits(&q) {
                    k.1.probe(q)
                } else {
                    Seq::empty()
                })
            },
        }
    }

    /// The pairs that probing both trees with each entity of `top`, in the order
    /// of `top`, reports.
    pub open spec fn crossed(top: Seq<L>, l: Self, r: Self) -> Seq<(L::ID, L::ID)>
        decreases top.len(),
    {
        if top.len() == 0 {
            Seq::empty()
        } else {
            let q = top.last().spec_bounds();
            Self::crossed(top.drop_last(), l, r) + pairs_with(l.probe(q) + r.probe(q), top.last())
        }
    }

    /// The pairs that a sweep of the tree reports, in the order it reports
    /// them: the collisions among the entities kept at the node, by exhaustive
    /// testing; then those that probing both children with each of these
    /// entities finds; then what the sweep of each child reports.
    pub open spec fn swept(self) -> Seq<(L::ID, L::ID)>
        decreases self,
    {
        brute_force(self.top) + match self.kids {
            None => Seq::empty(),
            Some(k) => Self::crossed(self.top, k.0, k.1) + k.0.swept() + k.1.swept(),
        }
    }

    /// The tree with `item` kept at this node.
    pub open spec fn keeping(self, item: L) -> Self {
        TreeView { top: self.top.push(item), ..self }
    }

    /// The insertion of `item`, followed for at most `fuel` levels below this
    /// node: the tree that results and the entities found to collide with
    /// `item`, in the order they are found; `None` where the descent has not
    /// ended by then.
    ///
    /// The node grows first.  Its entities that collide with `item` are found.
    /// Where `item` collides with the region of one child only, the insertion
    /// goes on in that child.  Otherwise both children, if there are any, are
    /// probed, and `item` is kept at the node.
    pub open spec fn placed(self, item: L, fuel: nat) -> Option<(Self, Seq<L>)>
        decreases fuel,
    {
        let g = self.grown();
        let q = item.spec_bounds();
        let found = g.top.filter(meets(q));
        match g.kids {
            None => Some((g.keeping(item), found)),
            Some(k) => {
                let (l, r) = *k;
                if on_side(item, l.bound, r.bound) {
                    if fuel == 0 {
                        None
                    } else {
                        match l.placed(item, (fuel - 1) as nat) {
                            None => None,
                            Some((l2, below)) => Some(
                                (TreeView { kids: Some(Box::new((l2, r))), ..g }, found + below),
                            ),
                        }
                    }
                } else if on_side(item, r.bound, l.bound) {
                    if fuel == 0 {
                        None
                    } else {
                        match r.placed(item, (fuel - 1) as nat) {
                            None => None,
                            Some((r2, below)) => Some(
                                (TreeView { kids: Some(Box::new((l, r2))), ..g }, found + below),
                            ),
                        }
                    }
                } else {
                    Some((g.keeping(item), found + l.probe(q) + r.probe(q)))
                }
            },
        }
    }

    /// The descent of `item` from this node ends.
    pub open spec fn admits(self, item: L) -> bool {
        exists|fuel: nat| self.placed(item, fuel) is Some
    }

    /// The descent of `item` ends `depth` levels below this node, and no
    /// sooner.
    pub open spec fn ends_at(self, item: L, depth: nat) -> bool {
        &&& self.placed(item, depth) is Some
        &&& forall|fuel: nat| fuel < depth ==> self.placed(item, fuel) is None
    }

    /// The number of levels below this node at which the descent of `item`
    /// ends, if it ends.
    pub open spec fn depth_for(self, item: L) -> nat {
        choose|depth: nat| self.ends_at(item, depth)
    }

    /// The tree after the insertion of `item`, where the tree admits it.
    pub open spec fn inserted(self, item: L) -> Self {
        self.placed(item, self.depth_for(item)).unwrap().0
    }

    /// The entities that the insertion of `item` finds to collide with it, in
    /// the order it finds them, where the tree admits `item`.
    pub open spec fn reported(self, item: L) -> Seq<L> {
        self.placed(item, self.depth_for(item)).unwrap().1
    }

    /// The insertion of the entities of `s`, one after the other in their
    /// order, into an empty tree over `universe`: the tree that results and all
    /// pairs that the insertions report, in the order they report them; `None`
    /// where the tree does not admit one of the entities when its turn comes.
    pub open spec fn built(universe: L::Box, s: Seq<L>) -> Option<(Self, Seq<(L::ID, L::ID)>)>
        decreases s.len(),
    {
        if s.len() == 0 {
            Some((Self::leaf(universe, Seq::empty()), Seq::empty()))
        } else {
            match Self::built(universe, s.drop_last()) {
                None => None,
                Some((t, pairs)) => {
                    if t.admits(s.last()) {
                        Some(
                            (
                                t.inserted(s.last()),
                                pairs + pairs_with(t.reported(s.last()), s.last()),
                            ),
                        )
                    } else {
                        None
                    }
                },
            }
        }
    }
}

} // verus!
