//! Axis-aligned integer rectangles used as room footprints by the
//! dungeon generator.

use vstd::prelude::*;

verus! {

/// An axis-aligned rectangle with inclusive corners `(x1, y1)` and
/// `(x2, y2)`. Immutable once created.
#[derive(Clone, Copy, PartialEq, Eq, Structural, Debug)]
pub struct Rect {
    pub x1: i32,
    pub y1: i32,
    pub x2: i32,
    pub y2: i32,
}

impl Rect {
    /// Two rectangles intersect iff their closed coordinate ranges
    /// overlap on both axes.
    pub open spec fn spec_intersect(self, other: Rect) -> bool {
        self.x1 <= other.x2 && self.x2 >= other.x1 && self.y1 <= other.y2 && self.y2 >= other.y1
    }

    /// The midpoint of the rectangle, rounded toward negative infinity.
    pub open spec fn spec_center(self) -> (int, int) {
        ((self.x1 + self.x2) / 2, (self.y1 + self.y2) / 2)
    }

    pub fn new(x: i32, y: i32, w: i32, h: i32) -> (r: Rect)
        requires
            i32::MIN <= x + w <= i32::MAX,
            i32::MIN <= y + h <= i32::MAX,
        ensures
            r == (Rect { x1: x, y1: y, x2: (x + w) as i32, y2: (y + h) as i32 }),
    {
        Rect { x1: x, y1: y, x2: x + w, y2: y + h }
    }

    pub fn intersect(&self, other: &Rect) -> (r: bool)
        ensures
            r == self.spec_intersect(*other),
    {
        self.x1 <= other.x2 && self.x2 >= other.x1 && self.y1 <= other.y2 && self.y2 >= other.y1
    }

    pub fn center(&self) -> (c: (i32, i32))
        requires
            0 <= self.x1 + self.x2 <= i32::MAX,
            0 <= self.y1 + self.y2 <= i32::MAX,
        ensures
            (c.0 as int, c.1 as int) == self.spec_center(),
            self.x1 <= self.x2 ==> self.x1 <= c.0 <= self.x2,
            self.y1 <= self.y2 ==> self.y1 <= c.1 <= self.y2,
            self.x1 + self.x2 - 1 <= 2 * (c.0 as int) <= self.x1 + self.x2,
            self.y1 + self.y2 - 1 <= 2 * (c.1 as int) <= self.y1 + self.y2,
    {
        proof {
            vstd::arithmetic::div_mod::lemma_fundamental_div_mod(self.x1 + self.x2, 2);
            vstd::arithmetic::div_mod::lemma_mod_bound(self.x1 + self.x2, 2);
            vstd::arithmetic::div_mod::lemma_fundamental_div_mod(self.y1 + self.y2, 2);
            vstd::arithmetic::div_mod::lemma_mod_bound(self.y1 + self.y2, 2);
        }
        ((self.x1 + self.x2) / 2, (self.y1 + self.y2) / 2)
    }
}

/// A rectangle's center lies within its closed coordinate ranges.
pub proof fn lemma_center_in_rect(r: Rect)
    requires
        r.x1 <= r.x2,
        r.y1 <= r.y2,
    ensures
        r.x1 <= r.spec_center().0 <= r.x2,
        r.y1 <= r.spec_center().1 <= r.y2,
{
    vstd::arithmetic::div_mod::lemma_fundamental_div_mod(r.x1 + r.x2, 2);
    vstd::arithmetic::div_mod::lemma_mod_bound(r.x1 + r.x2, 2);
    vstd::arithmetic::div_mod::lemma_fundamental_div_mod(r.y1 + r.y2, 2);
    vstd::arithmetic::div_mod::lemma_mod_bound(r.y1 + r.y2, 2);
}

/// Intersection is symmetric: the overlap test reads the same either
/// way round.
pub proof fn lemma_intersect_symmetric(a: Rect, b: Rect)
    ensures
        a.spec_intersect(b) == b.spec_intersect(a),
{
}

} // verus!
