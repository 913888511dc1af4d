//! A broad-phase collision index for axis-aligned bounding boxes.
//!
//! A [`LocalTree`] takes entities one at a time.  Each insertion reports every
//! entity already held whose box collides with the new one, and places the new
//! entity in a binary partition of the plane, in which a region is split in
//! two once eight entities have gathered in it.
//!
//! - [`boxes`]: boxes over integer coordinates, and entities made of an
//!   identity and a box;
//! - [`rect`]: the geometry of such boxes, over the mathematical integers;
//! - [`tree`]: the tree and its operations;
//! - [`view`]: the tree as a mathematical value, and what the operations do to
//!   it;
//! - [`kept`], [`descent`], [`complete`], [`sweep`]: what is proved of the
//!   tree: its invariant, which entities it can take, and that insertions,
//!   probes and sweeps find exactly the collisions that exhaustive testing
//!   finds;
//! - [`seqs`]: the facts about sequences and multisets that these proofs use.
#![allow(unused_imports)]

use vstd::prelude::*;

pub mod boxes;
pub mod complete;
pub mod descent;
pub mod kept;
mod prims;
pub mod rect;
mod sealed;
pub mod seqs;
pub mod sweep;
pub mod tree;
pub mod view;

pub use crate::tree::LocalTree;
pub use crate::view::TreeView;

verus! {

/// A box that can be tested against another and cut in two.
///
/// Beside the two operations the trait asks for what a partition tree needs to
/// know of them: the laws below, which every implementation proves.
pub trait BoundBox: Sized + Clone {
    /// The box can be tested and split: the arithmetic that this takes stays in
    /// range.
    spec fn valid(&self) -> bool;

    /// The box is a region that its halves tile: no extent is negative.
    spec fn proper(&self) -> bool;

    /// What `hits` returns.
    spec fn spec_hits(&self, b: &Self) -> bool;

    /// What `split` returns.
    spec fn spec_split(&self) -> (Self, Self);

    /// The two halves of the box.  An implementation is free in how it cuts;
    /// cutting across the longer side keeps the regions of a tree compact.
    fn split(&self) -> (r: (Self, Self))
        requires
            self.valid(),
        ensures
            r == self.spec_split(),
    ;

    /// Whether the box collides with `b`.
    fn hits(&self, b: &Self) -> (r: bool)
        requires
            self.valid(),
            b.valid(),
        ensures
            r == self.spec_hits(b),
    ;

    /// Collision does not depend on the order of the two boxes.
    proof fn lemma_hits_symmetric(&self, b: &Self)
        ensures
            self.spec_hits(b) == b.spec_hits(self),
    ;

    /// The halves of a valid box are valid.
    proof fn lemma_split_valid(&self)
        requires
            self.valid(),
        ensures
            self.spec_split().0.valid(),
            self.spec_split().1.valid(),
    ;

    /// The halves of a proper box are proper.
    proof fn lemma_split_proper(&self)
        requires
            self.valid(),
            self.proper(),
        ensures
            self.spec_split().0.proper(),
            self.spec_split().1.proper(),
    ;

    /// A box that collides with a half of a proper box collides with the box.
    proof fn lemma_split_within(&self, q: &Self)
        requires
            self.valid(),
            self.proper(),
            self.spec_split().0.spec_hits(q) || self.spec_split().1.spec_hits(q),
        ensures
            self.spec_hits(q),
    ;

    /// A box `p` that collides with only one half of a proper box stays clear of
    /// every box `q` that collides with the whole but not with that half.
    proof fn lemma_split_separates(&self, p: &Self, q: &Self)
        requires
            self.valid(),
            self.proper(),
            self.spec_hits(q),
            ({
                let (a, b) = self.spec_split();
                ||| a.spec_hits(p) && !b.spec_hits(p) && !a.spec_hits(q)
                ||| b.spec_hits(p) && !a.spec_hits(p) && !b.spec_hits(q)
            }),
        ensures
            !p.spec_hits(q),
    ;
}

/// An entity that a tree can hold: it has an identity, by which collisions are
/// reported, and a bounding box, by which they are found.
pub trait Located {
    type ID;

    type Box: BoundBox;

    /// What `id` returns.
    spec fn spec_id(&self) -> Self::ID;

    /// What `bounds` returns.
    spec fn spec_bounds(&self) -> Self::Box;

    /// The entity's identity.
    fn id(&self) -> (r: Self::ID)
        ensures
            r == self.spec_id(),
    ;

    /// The entity's bounding box.
    fn bounds(&self) -> (r: Self::Box)
        ensures
            r == self.spec_bounds(),
    ;
}

} // verus!
