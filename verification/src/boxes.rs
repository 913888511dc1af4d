//! Bounding boxes over primitive integer coordinates, and entities that carry one.
use crate::rect::Rect;
use crate::sealed::Sealed;
use crate::BoundBox;
use crate::Located;
use num_traits::NumCast;
use vstd::prelude::*;

verus! {

/// A primitive integer type, seen as a range of the mathematical integers.
pub trait Integral: Copy + Sealed {
    /// The integer that the value holds.
    spec fn val(self) -> int;

    /// The value that holds `v`, for a `v` between `lowest()` and `highest()`.
    spec fn of(v: int) -> Self;

    /// The least integer that the type holds.
    spec fn lowest() -> int;

    /// The greatest integer that the type holds.
    spec fn highest() -> int;

    /// `val` and `of` are inverse to each other on the type's range, which
    /// reaches from zero or below to two or above.
    proof fn lemma_model(self, v: int)
        ensures
            Self::lowest() <= self.val() <= Self::highest(),
            Self::of(self.val()) == self,
            Self::lowest() <= v <= Self::highest() ==> Self::of(v).val() == v,
            Self::lowest() <= 0,
            2 <= Self::highest(),
    ;
}

/// A coordinate type: an integer type with the order and the arithmetic that
/// bounding boxes need.
pub trait BNum: Integral {
    /// `self > o`.
    fn gt(self, o: Self) -> (r: bool)
        ensures
            r == (self.val() > o.val()),
    ;

    /// `self + o`, where the sum is in range.
    fn plus(self, o: Self) -> (r: Self)
        requires
            Self::lowest() <= self.val() + o.val() <= Self::highest(),
        ensures
            r.val() == self.val() + o.val(),
    ;

    /// `self - o`, where the difference is in range.
    fn minus(self, o: Self) -> (r: Self)
        requires
            Self::lowest() <= self.val() - o.val() <= Self::highest(),
        ensures
            r.val() == self.val() - o.val(),
    ;

    /// `self / 2`, rounded towards zero.
    fn half(self) -> (r: Self)
        ensures
            r.val() == crate::rect::half(self.val()),
    ;
}

/// Converts a number from one integer type to another.
///
/// Calls `num_traits::NumCast::from` and unwraps what it returns.  Between
/// primitive integers that function returns `Some` of the same number whenever
/// the target type can hold it, and `None` otherwise; the contract asks for the
/// first case and claims that the number is kept.  This is taken from the source
/// of `num_traits`, not proved.
#[verifier::external_body]
pub fn qcast<A: Integral + NumCast, B: Integral + NumCast>(a: A) -> (r: B)
    requires
        B::lowest() <= a.val() <= B::highest(),
    ensures
        r.val() == a.val(),
{
    NumCast::from(a).unwrap()
}

/// An axis-aligned bounding box: an origin and two extents.
///
/// Its view is the [`Rect`] that the four coordinates hold.
#[derive(Copy, Debug)]
pub struct Bounds<T: BNum> {
    x: T,
    y: T,
    w: T,
    h: T,
}

impl<T: BNum> Clone for Bounds<T> {
    fn clone(&self) -> (r: Self)
        ensures
            r == *self,
    {
        *self
    }
}

impl<T: BNum> View for Bounds<T> {
    type V = Rect;

    closed spec fn view(&self) -> Rect {
        Rect { x: self.x.val(), y: self.y.val(), w: self.w.val(), h: self.h.val() }
    }
}

impl<T: BNum> Bounds<T> {
    /// `v` is in the range of the coordinate type.
    pub open spec fn fits(v: int) -> bool {
        T::lowest() <= v <= T::highest()
    }

    /// The box whose view is `r`, for an `r` whose four fields fit.
    pub closed spec fn of(r: Rect) -> Self {
        Bounds { x: T::of(r.x), y: T::of(r.y), w: T::of(r.w), h: T::of(r.h) }
    }

    /// A box is known by its view: its four fields fit, as zero does; `of` leads
    /// back from the view to the box, and from a rectangle whose fields fit to a
    /// box with that view.
    pub proof fn lemma_view(self, r: Rect)
        ensures
            Self::fits(0),
            Self::fits(self@.x) && Self::fits(self@.y) && Self::fits(self@.w) && Self::fits(
                self@.h,
            ),
            Self::of(self@) == self,
            Self::fits(r.x) && Self::fits(r.y) && Self::fits(r.w) && Self::fits(r.h) ==> Self::of(
                r,
            )@ == r,
    {
        self.x.lemma_model(r.x);
        self.y.lemma_model(r.y);
        self.w.lemma_model(r.w);
        self.h.lemma_model(r.h);
    }

    /// The box is proper, collides with `region`, and has its origin before the
    /// far edges of `region`: this is what lets a tree over `region` place it.
    pub open spec fn settles_in(self, region: Self) -> bool {
        &&& self@.proper()
        &&& region@.hits(self@)
        &&& self@.x < region@.x + region@.w
        &&& self@.y < region@.y + region@.h
    }

    /// The halves of a valid box have its area between them, and a point of one
    /// half never lies inside the other.
    pub proof fn lemma_split_tiles(self, px: int, py: int)
        requires
            self.valid(),
        ensures
            self.spec_split().0@.area() + self.spec_split().1@.area() == self@.area(),
            !(self.spec_split().0@.holds(px, py) && self.spec_split().1@.holds_inside(px, py)),
            !(self.spec_split().1@.holds(px, py) && self.spec_split().0@.holds_inside(px, py)),
    {
        self.lemma_split_view();
        crate::rect::lemma_split_area(self@);
        crate::rect::lemma_split_disjoint(self@, px, py);
    }

    /// The halves of a valid box, as rectangles, are the views of its halves.
    pub proof fn lemma_split_view(self)
        requires
            self.valid(),
        ensures
            self.spec_split().0@ == self@.split().0,
            self.spec_split().1@ == self@.split().1,
    {
        crate::rect::lemma_half_between(self@.w);
        crate::rect::lemma_half_between(self@.h);
        self.lemma_view(self@.split().0);
        self.lemma_view(self@.split().1);
    }

    /// The box with the origin `(x, y)`, the width `w` and the height `h`.
    pub fn new(x: T, y: T, w: T, h: T) -> (r: Self)
        ensures
            r@ == (Rect { x: x.val(), y: y.val(), w: w.val(), h: h.val() }),
    {
        Bounds { x, y, w, h }
    }
}

impl<T: BNum> BoundBox for Bounds<T> {
    /// Both far edges, `x + w` and `y + h`, are in the range of the coordinate
    /// type.
    open spec fn valid(&self) -> bool {
        Self::fits(self@.x + self@.w) && Self::fits(self@.y + self@.h)
    }

    open spec fn proper(&self) -> bool {
        self@.proper()
    }

    open spec fn spec_hits(&self, b: &Self) -> bool {
        self@.hits(b@)
    }

    open spec fn spec_split(&self) -> (Self, Self) {
        (Self::of(self@.split().0), Self::of(self@.split().1))
    }

    fn hits(&self, b: &Self) -> (r: bool) {
        if self.x.gt(b.x.plus(b.w)) || b.x.gt(self.x.plus(self.w)) {
            return false;
        }
        if self.y.gt(b.y.plus(b.h)) || b.y.gt(self.y.plus(self.h)) {
            return false;
        }
        true
    }

    fn split(&self) -> (r: (Self, Self)) {
        proof {
            crate::rect::lemma_half_between(self@.w);
            crate::rect::lemma_half_between(self@.h);
            self.lemma_view(self@);
        }
        let halves = match self.w.gt(self.h) {
            true => (
                Bounds { w: self.w.half(), ..*self },
                Bounds {
                    x: self.x.plus(self.w.half()),
                    w: self.w.minus(self.w.half()),
                    ..*self
                },
            ),
            false => (
                Bounds { h: self.h.half(), ..*self },
                Bounds {
                    y: self.y.plus(self.h.half()),
                    h: self.h.minus(self.h.half()),
                    ..*self
                },
            ),
        };
        proof {
            halves.0.lemma_view(self@);
            halves.1.lemma_view(self@);
        }
        halves
    }

    proof fn lemma_hits_symmetric(&self, b: &Self) {
    }

    proof fn lemma_split_valid(&self) {
        crate::rect::lemma_half_between(self@.w);
        crate::rect::lemma_half_between(self@.h);
        self.lemma_view(self@);
        self.lemma_split_view();
    }

    proof fn lemma_split_proper(&self) {
        self.lemma_split_view();
    }

    proof fn lemma_split_within(&self, q: &Self) {
        self.lemma_split_view();
        crate::rect::lemma_split_hits(self@, q@);
    }

    proof fn lemma_split_separates(&self, p: &Self, q: &Self) {
        self.lemma_split_view();
        crate::rect::lemma_split_separates(self@, p@, q@);
    }
}

/// An entity made of an identity and a bounding box.
#[derive(Copy, Debug)]
pub struct IdBound<I: Copy, B: BoundBox + Copy> {
    id: I,
    b: B,
}

impl<I: Copy, B: BoundBox + Copy> Clone for IdBound<I, B> {
    fn clone(&self) -> (r: Self)
        ensures
            r == *self,
    {
        *self
    }
}

impl<I: Copy, B: BoundBox + Copy> IdBound<I, B> {
    /// The entity with the identity `id` and the box `b`.
    pub fn new(id: I, b: B) -> (r: Self)
        ensures
            r.spec_id() == id,
            r.spec_bounds() == b,
    {
        IdBound { id, b }
    }

    /// An entity is known by its identity and its box.
    pub proof fn lemma_parts(self, o: Self)
        requires
            self.spec_id() == o.spec_id(),
            self.spec_bounds() == o.spec_bounds(),
        ensures
            self == o,
    {
    }
}

impl<I: Copy, B: BoundBox + Copy> Located for IdBound<I, B> {
    type ID = I;

    type Box = B;

    closed spec fn spec_id(&self) -> I {
        self.id
    }

    closed spec fn spec_bounds(&self) -> B {
        self.b
    }

    fn id(&self) -> (r: I) {
        self.id
    }

    fn bounds(&self) -> (r: B) {
        self.b
    }
}

} // verus!
