//! Axis-aligned rectangles on the tile grid, used for rooms.

use vstd::prelude::*;

verus! {

/// A rectangle with corners `(x1, y1)` and `(x2, y2)`.
#[derive(Clone, Copy, Debug, PartialEq, Eq, Structural)]
pub struct Rect {
    pub x1: i32,
    pub x2: i32,
    pub y1: i32,
    pub y2: i32,
}

/// The integer halfway between `a` and `b`, rounded towards zero.
pub open spec fn midpoint(a: int, b: int) -> int {
    if a + b >= 0 {
        (a + b) / 2
    } else {
        -((-(a + b)) / 2)
    }
}

impl Rect {
    /// Whether the two rectangles share a point, borders included.
    pub open spec fn overlaps(self, other: Rect) -> bool {
        self.x1 <= other.x2 && self.x2 >= other.x1 && self.y1 <= other.y2 && self.y2 >= other.y1
    }

    /// The centre of the rectangle.
    pub open spec fn center_point(self) -> (int, int) {
        (midpoint(self.x1 as int, self.x2 as int), midpoint(self.y1 as int, self.y2 as int))
    }

    /// Whether `(x, y)` lies in the part of the rectangle that is carved
    /// out as floor: everything but its left column and top row.
    pub open spec fn carves(self, x: int, y: int) -> bool {
        self.x1 < x <= self.x2 && self.y1 < y <= self.y2
    }

    /// The rectangle with corner `(x, y)`, `w` wide and `h` high.
    pub fn new(x: i32, y: i32, w: i32, h: i32) -> (r: Rect)
        requires
            i32::MIN <= x + w <= i32::MAX,
            i32::MIN <= y + h <= i32::MAX,
        ensures
            r == (Rect { x1: x, x2: (x + w) as i32, y1: y, y2: (y + h) as i32 }),
    {
        Rect { x1: x, y1: y, x2: x + w, y2: y + h }
    }

    /// Whether the two rectangles share a point, borders included.
    pub fn intersect(&self, other: &Rect) -> (r: bool)
        ensures
            r == self.overlaps(*other),
    {
        self.x1 <= other.x2 && self.x2 >= other.x1 && self.y1 <= other.y2 && self.y2 >= other.y1
    }

    /// The centre of the rectangle, each coordinate rounded towards zero.
    pub fn center(&self) -> (c: (i32, i32))
        ensures
            (c.0 as int, c.1 as int) == self.center_point(),
    {
        let cx: i64 = (self.x1 as i64 + self.x2 as i64) / 2;
        let cy: i64 = (self.y1 as i64 + self.y2 as i64) / 2;
        (cx as i32, cy as i32)
    }
}

} // verus!
