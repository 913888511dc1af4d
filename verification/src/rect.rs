//! Rectangles over the mathematical integers.
//!
//! A [`Rect`] is what a bounding box means once the width of its coordinate type
//! is set aside: the closed region `[x, x + w] x [y, y + h]`.  The overlap test
//! and the halving split are defined here, and their laws are proved here.
use vstd::prelude::*;

verus! {

/// Half of `v`, rounded towards zero.
pub open spec fn half(v: int) -> int {
    if v >= 0 {
        v / 2
    } else {
        -((-v) / 2)
    }
}

/// Half of `v` lies between zero and `v`, and so does what it leaves of `v`.
pub proof fn lemma_half_between(v: int)
    ensures
        v >= 0 ==> 0 <= half(v) <= v && 0 <= v - half(v) <= v,
        v <= 0 ==> v <= half(v) <= 0 && v <= v - half(v) <= 0,
        v >= 0 ==> half(v) <= v - half(v) <= half(v) + 1,
{
}

/// A rectangle given by its origin and its extents.
pub struct Rect {
    pub x: int,
    pub y: int,
    pub w: int,
    pub h: int,
}

impl Rect {
    /// Neither extent is negative.
    pub open spec fn proper(self) -> bool {
        self.w >= 0 && self.h >= 0
    }

    /// The two rectangles overlap on both axes; touching edges count.
    pub open spec fn hits(self, o: Rect) -> bool {
        &&& self.x <= o.x + o.w
        &&& o.x <= self.x + self.w
        &&& self.y <= o.y + o.h
        &&& o.y <= self.y + self.h
    }

    /// The two halves of the rectangle, cut across its longer side; a square is
    /// cut across its height.  The first half keeps the origin, the second takes
    /// what the first leaves.
    pub open spec fn split(self) -> (Rect, Rect) {
        if self.w > self.h {
            let a = half(self.w);
            (Rect { w: a, ..self }, Rect { x: self.x + a, w: self.w - a, ..self })
        } else {
            let a = half(self.h);
            (Rect { h: a, ..self }, Rect { y: self.y + a, h: self.h - a, ..self })
        }
    }

    /// Width times height.
    pub open spec fn area(self) -> int {
        self.w * self.h
    }

    /// The point lies in the rectangle, edges included.
    pub open spec fn holds(self, px: int, py: int) -> bool {
        self.x <= px <= self.x + self.w && self.y <= py <= self.y + self.h
    }

    /// The point lies in the rectangle and on none of its edges.
    pub open spec fn holds_inside(self, px: int, py: int) -> bool {
        self.x < px < self.x + self.w && self.y < py < self.y + self.h
    }
}

/// Overlap does not depend on the order of the two rectangles.
pub proof fn lemma_hits_symmetric(a: Rect, b: Rect)
    ensures
        a.hits(b) == b.hits(a),
{
}

/// A proper rectangle overlaps itself, and overlaps exactly the rectangles that
/// share a point with it.
pub proof fn lemma_hits_shares_point(a: Rect, b: Rect)
    requires
        a.proper(),
        b.proper(),
    ensures
        a.hits(a),
        a.hits(b) <==> exists|px: int, py: int| a.holds(px, py) && b.holds(px, py),
{
    if a.hits(b) {
        let px = if a.x >= b.x { a.x } else { b.x };
        let py = if a.y >= b.y { a.y } else { b.y };
        assert(a.holds(px, py) && b.holds(px, py));
    }
}

/// The halves of a rectangle have its area between them.
pub proof fn lemma_split_area(r: Rect)
    ensures
        r.split().0.area() + r.split().1.area() == r.area(),
{
    let (a, b) = r.split();
    if r.w > r.h {
        assert(a.w * r.h + (r.w - a.w) * r.h == r.w * r.h) by (nonlinear_arith);
    } else {
        assert(r.w * a.h + r.w * (r.h - a.h) == r.w * r.h) by (nonlinear_arith);
    }
}

/// The halves of a proper rectangle are proper, lie side by side along the cut,
/// and agree with the rectangle on the other axis.
pub proof fn lemma_split_proper(r: Rect)
    requires
        r.proper(),
    ensures
        r.split().0.proper(),
        r.split().1.proper(),
        r.split().0.x == r.x,
        r.split().0.y == r.y,
        r.split().1.x + r.split().1.w == r.x + r.w,
        r.split().1.y + r.split().1.h == r.y + r.h,
        r.w > r.h ==> r.split().0.x + r.split().0.w == r.split().1.x,
        r.w <= r.h ==> r.split().0.y + r.split().0.h == r.split().1.y,
{
}

/// The halves of a proper rectangle cover it and nothing else.
pub proof fn lemma_split_covers(r: Rect, px: int, py: int)
    requires
        r.proper(),
    ensures
        r.holds(px, py) <==> r.split().0.holds(px, py) || r.split().1.holds(px, py),
{
}

/// The halves of a rectangle share at most a boundary: a point of one half
/// never lies inside the other.
pub proof fn lemma_split_disjoint(r: Rect, px: int, py: int)
    ensures
        !(r.split().0.holds(px, py) && r.split().1.holds_inside(px, py)),
        !(r.split().1.holds(px, py) && r.split().0.holds_inside(px, py)),
{
}

/// Whatever overlaps a half of a proper rectangle overlaps the rectangle, and
/// whatever overlaps a proper rectangle with proper extents of its own overlaps
/// one of the halves.
pub proof fn lemma_split_hits(r: Rect, q: Rect)
    requires
        r.proper(),
    ensures
        r.split().0.hits(q) || r.split().1.hits(q) ==> r.hits(q),
        r.hits(q) && q.proper() ==> r.split().0.hits(q) || r.split().1.hits(q),
{
}

/// A rectangle that overlaps only one half of a proper rectangle stays clear of
/// every rectangle that overlaps the whole but not that half.
pub proof fn lemma_split_separates(r: Rect, p: Rect, q: Rect)
    requires
        r.proper(),
        r.hits(q),
        ({
            let (a, b) = r.split();
            ||| a.hits(p) && !b.hits(p) && !a.hits(q)
            ||| b.hits(p) && !a.hits(p) && !b.hits(q)
        }),
    ensures
        !p.hits(q),
{
}

/// A proper rectangle `q` whose origin lies before the far edges of a proper
/// rectangle `r`, and which overlaps `r` and one half of it only, has its
/// origin before the far edges of that half too; and the half is smaller than
/// `r`: its extents add up to less.
pub proof fn lemma_split_descends(r: Rect, q: Rect)
    requires
        r.proper(),
        q.proper(),
        r.hits(q),
        q.x < r.x + r.w,
        q.y < r.y + r.h,
    ensures
        ({
            let (a, b) = r.split();
            &&& a.hits(q) && !b.hits(q) ==> q.x < a.x + a.w && q.y < a.y + a.h && a.w + a.h < r.w
                + r.h
            &&& b.hits(q) && !a.hits(q) ==> q.x < b.x + b.w && q.y < b.y + b.h && b.w + b.h < r.w
                + r.h
        }),
{
}

} // verus!
