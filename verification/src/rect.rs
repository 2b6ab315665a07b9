//! Axis-aligned integer rectangle used for room geometry: construction,
//! intersection test, and center point.

use vstd::prelude::*;

verus! {

/// A rectangle spanning `x1..=x2` by `y1..=y2` in tile coordinates.
#[derive(Clone, Copy, Debug, PartialEq, Eq, Structural)]
pub struct Rect {
    pub x1: i32,
    pub y1: i32,
    pub x2: i32,
    pub y2: i32,
}

impl Rect {
    /// A room rectangle sits at non-negative coordinates with positive extent.
    pub open spec fn wf(self) -> bool {
        0 <= self.x1 < self.x2 <= 100_000 && 0 <= self.y1 < self.y2 <= 100_000
    }

    /// Two rectangles intersect when their coordinate ranges overlap or touch.
    pub open spec fn intersects(self, other: Rect) -> bool {
        self.x1 <= other.x2 && self.x2 >= other.x1 && self.y1 <= other.y2 && self.y2 >= other.y1
    }

    /// The center tile, rounding down.
    pub open spec fn center_spec(self) -> (int, int) {
        ((self.x1 + self.x2) / 2, (self.y1 + self.y2) / 2)
    }

    pub fn new(x: i32, y: i32, w: i32, h: i32) -> (r: Rect)
        requires
            0 <= x,
            0 <= y,
            0 < w,
            0 < h,
            x + w <= 100_000,
            y + h <= 100_000,
        ensures
            r == (Rect { x1: x, y1: y, x2: (x + w) as i32, y2: (y + h) as i32 }),
            r.wf(),
    {
        Rect { x1: x, y1: y, x2: x + w, y2: y + h }
    }

    /// Whether this rectangle overlaps (or touches) `other`.
    pub fn intersect(&self, other: &Rect) -> (r: bool)
        ensures
            r == self.intersects(*other),
    {
        self.x1 <= other.x2 && self.x2 >= other.x1 && self.y1 <= other.y2 && self.y2 >= other.y1
    }

    /// The center tile of the rectangle.
    pub fn center(&self) -> (r: (i32, i32))
        requires
            self.wf(),
        ensures
            (r.0 as int, r.1 as int) == self.center_spec(),
            self.x1 <= r.0 <= self.x2,
            self.y1 <= r.1 <= self.y2,
    {
        ((self.x1 + self.x2) / 2, (self.y1 + self.y2) / 2)
    }
}

} // verus!
