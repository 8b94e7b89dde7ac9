//! Axis-aligned rectangles on the dungeon grid, and squared-distance
//! helpers used by movement, targeting and area effects.

use vstd::prelude::*;

verus! {

/// An axis-aligned rectangle, stored by its two corners.
/// `x1 <= x2` and `y1 <= y2` hold for every rectangle built by `Rect::new`.
#[derive(Clone, Copy, PartialEq, Eq, Structural)]
pub struct Rect {
    pub x1: i32,
    pub y1: i32,
    pub x2: i32,
    pub y2: i32,
}

impl Rect {
    /// Builds the rectangle with top-left corner `(x, y)`, width `w` and height `h`.
    pub fn new(x: i32, y: i32, w: i32, h: i32) -> (r: Rect)
        requires
            i32::MIN <= x + w <= i32::MAX,
            i32::MIN <= y + h <= i32::MAX,
        ensures
            r.x1 == x,
            r.y1 == y,
            r.x2 == x + w,
            r.y2 == y + h,
    {
        Rect { x1: x, y1: y, x2: x + w, y2: y + h }
    }

    /// The center cell of the rectangle, rounded down.
    pub fn center(&self) -> (c: (i32, i32))
        requires
            0 <= self.x1 <= self.x2,
            0 <= self.y1 <= self.y2,
            self.x1 + self.x2 <= i32::MAX,
            self.y1 + self.y2 <= i32::MAX,
        ensures
            c.0 == (self.x1 + self.x2) / 2,
            c.1 == (self.y1 + self.y2) / 2,
            self.x1 <= c.0 <= self.x2,
            self.y1 <= c.1 <= self.y2,
    {
        let center_x = (self.x1 + self.x2) / 2;
        let center_y = (self.y1 + self.y2) / 2;
        (center_x, center_y)
    }

    /// Whether this rectangle intersects `other`, boundaries included.
    pub fn intersect(&self, other: &Rect) -> (r: bool)
        ensures
            r == (self.x1 <= other.x2 && self.x2 >= other.x1 && self.y1 <= other.y2
                && self.y2 >= other.y1),
    {
        (self.x1 <= other.x2) && (self.x2 >= other.x1) && (self.y1 <= other.y2)
            && (self.y2 >= other.y1)
    }
}

/// The squared Euclidean distance between two grid cells.
///
/// Distances are compared in squared form throughout the engine: for
/// non-negative integers, `sqrt(d)` against a radius `r` is exactly
/// `d` against `r * r`, so no rounding is involved.
pub open spec fn spec_dist_sq(ax: int, ay: int, bx: int, by: int) -> int {
    (bx - ax) * (bx - ax) + (by - ay) * (by - ay)
}

/// Computes the squared distance between `(ax, ay)` and `(bx, by)`.
pub fn dist_sq(ax: i32, ay: i32, bx: i32, by: i32) -> (d: i64)
    requires
        -100_000 <= ax <= 100_000,
        -100_000 <= ay <= 100_000,
        -100_000 <= bx <= 100_000,
        -100_000 <= by <= 100_000,
    ensures
        d == spec_dist_sq(ax as int, ay as int, bx as int, by as int),
{
    let dx: i64 = bx as i64 - ax as i64;
    let dy: i64 = by as i64 - ay as i64;
    assert(0 <= dx * dx <= 40_000_000_000 && 0 <= dy * dy <= 40_000_000_000)
        by (nonlinear_arith)
        requires
            -200_000 <= dx <= 200_000,
            -200_000 <= dy <= 200_000,
    ;
    dx * dx + dy * dy
}

} // verus!
