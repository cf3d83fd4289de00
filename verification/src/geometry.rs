use crate::units::{POS_LIMIT, SIZE_LIMIT};
use vstd::prelude::*;

verus! {

/// A square axis-aligned hitbox, described by its center and edge length,
/// both in milli-units.
#[derive(Clone, Copy, PartialEq, Eq, Structural, Debug)]
pub struct Shape {
    /// Horizontal center coordinate.
    pub x: i64,
    /// Vertical center coordinate; larger values are lower on screen.
    pub y: i64,
    /// Edge length of the square hitbox; always positive.
    pub size: i64,
}

/// A corner-and-extent rectangle, derived from a `Shape` for renderers.
/// With an odd edge length the corner lands on the milli-unit nearest the
/// center; the exact collision test does not go through this rounding.
#[derive(Clone, Copy, PartialEq, Eq, Structural, Debug)]
pub struct Rect {
    pub x: i64,
    pub y: i64,
    pub w: i64,
    pub h: i64,
}

impl Shape {
    pub open spec fn wf(self) -> bool {
        &&& 0 < self.size <= SIZE_LIMIT
        &&& -POS_LIMIT <= self.x <= POS_LIMIT
        &&& -POS_LIMIT <= self.y <= POS_LIMIT
    }

    /// Left edge of the hitbox, doubled. Doubling the coordinates lets the
    /// edges of an odd-sized square be stated exactly in integers.
    pub open spec fn left2(self) -> int {
        2 * self.x - self.size
    }

    /// Right edge of the hitbox, doubled.
    pub open spec fn right2(self) -> int {
        2 * self.x + self.size
    }

    /// Top edge of the hitbox, doubled.
    pub open spec fn top2(self) -> int {
        2 * self.y - self.size
    }

    /// Bottom edge of the hitbox, doubled.
    pub open spec fn bottom2(self) -> int {
        2 * self.y + self.size
    }

    /// Axis-aligned rectangle intersection over half-open extents: two
    /// squares that merely touch along an edge do not overlap.
    pub open spec fn overlaps(self, other: Shape) -> bool {
        &&& self.left2() < other.right2()
        &&& other.left2() < self.right2()
        &&& self.top2() < other.bottom2()
        &&& other.top2() < self.bottom2()
    }

    /// Decides whether this hitbox overlaps `other`.
    pub fn collides_with(&self, other: &Shape) -> (r: bool)
        requires
            self.wf(),
            other.wf(),
        ensures
            r == self.overlaps(*other),
    {
        2 * self.x - self.size < 2 * other.x + other.size
            && 2 * other.x - other.size < 2 * self.x + self.size
            && 2 * self.y - self.size < 2 * other.y + other.size
            && 2 * other.y - other.size < 2 * self.y + self.size
    }

    /// The corner-and-extent rectangle spanned by this hitbox, for drawing.
    pub fn rect(&self) -> (r: Rect)
        requires
            self.wf(),
        ensures
            r.x == self.x - self.size / 2,
            r.y == self.y - self.size / 2,
            r.w == self.size,
            r.h == self.size,
    {
        Rect { x: self.x - self.size / 2, y: self.y - self.size / 2, w: self.size, h: self.size }
    }
}

/// Overlap is symmetric: swapping the two hitboxes never changes the answer.
pub proof fn lemma_overlaps_symmetric(a: Shape, b: Shape)
    ensures
        a.overlaps(b) == b.overlaps(a),
{
}

} // verus!
