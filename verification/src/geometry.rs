//! Integer points and axis-aligned rectangles.

use vstd::prelude::*;

verus! {

/// A position on the tile grid, or an offset between two positions.
#[derive(Clone, Copy, Debug, PartialEq, Eq, Structural, Hash)]
pub struct Point {
    pub x: i32,
    pub y: i32,
}

/// The square of the Euclidean distance between two points.
pub open spec fn spec_distance_squared(a: Point, b: Point) -> int {
    (a.x - b.x) * (a.x - b.x) + (a.y - b.y) * (a.y - b.y)
}

impl Point {
    pub fn new(x: i32, y: i32) -> (p: Point)
        ensures
            p == (Point { x, y }),
    {
        Point { x, y }
    }

    pub fn zero() -> (p: Point)
        ensures
            p == (Point { x: 0, y: 0 }),
    {
        Point { x: 0, y: 0 }
    }

    /// The point moved by `delta`.
    pub open spec fn spec_offset(self, delta: Point) -> Point {
        Point { x: (self.x + delta.x) as i32, y: (self.y + delta.y) as i32 }
    }

    /// Whether moving by `delta` stays within the range of the coordinates.
    pub open spec fn offset_fits(self, delta: Point) -> bool {
        &&& i32::MIN <= self.x + delta.x <= i32::MAX
        &&& i32::MIN <= self.y + delta.y <= i32::MAX
    }

    /// The point moved by `delta`.
    pub fn offset(self, delta: Point) -> (p: Point)
        requires
            self.offset_fits(delta),
        ensures
            p == self.spec_offset(delta),
            p.x == self.x + delta.x,
            p.y == self.y + delta.y,
    {
        Point { x: self.x + delta.x, y: self.y + delta.y }
    }

    /// The square of the Euclidean distance to `other`.
    pub fn distance_squared(self, other: Point) -> (d: u128)
        ensures
            d == spec_distance_squared(self, other),
    {
        let dx: i128 = self.x as i128 - other.x as i128;
        let dy: i128 = self.y as i128 - other.y as i128;
        assert(0 <= dx * dx <= 0x1_0000_0000 * 0x1_0000_0000) by (nonlinear_arith)
            requires
                -0x1_0000_0000 <= dx <= 0x1_0000_0000,
        ;
        assert(0 <= dy * dy <= 0x1_0000_0000 * 0x1_0000_0000) by (nonlinear_arith)
            requires
                -0x1_0000_0000 <= dy <= 0x1_0000_0000,
        ;
        (dx * dx + dy * dy) as u128
    }
}

/// Half of `s`, rounded toward zero.
pub open spec fn half(s: int) -> int {
    if s >= 0 {
        s / 2
    } else {
        -((-s) / 2)
    }
}

/// An axis-aligned rectangle. It covers the points with `x1 <= x < x2` and
/// `y1 <= y < y2`.
#[derive(Clone, Copy, Debug, PartialEq, Eq, Structural)]
pub struct Rect {
    pub x1: i32,
    pub x2: i32,
    pub y1: i32,
    pub y2: i32,
}

impl Rect {
    /// Whether `point` lies inside the rectangle.
    pub open spec fn spec_contains(self, point: Point) -> bool {
        self.x1 <= point.x < self.x2 && self.y1 <= point.y < self.y2
    }

    /// Whether the two rectangles touch or overlap.
    pub open spec fn spec_intersect(self, other: Rect) -> bool {
        self.x1 <= other.x2 && self.x2 >= other.x1 && self.y1 <= other.y2 && self.y2 >= other.y1
    }

    /// The middle of the rectangle, each coordinate rounded toward zero.
    pub open spec fn spec_center(self) -> Point {
        Point { x: half(self.x1 + self.x2) as i32, y: half(self.y1 + self.y2) as i32 }
    }

    /// The rectangle with corner `(x, y)`, `w` wide and `h` high.
    pub fn with_size(x: i32, y: i32, w: i32, h: i32) -> (r: Rect)
        requires
            i32::MIN <= x + w <= i32::MAX,
            i32::MIN <= y + h <= i32::MAX,
        ensures
            r == (Rect { x1: x, x2: (x + w) as i32, y1: y, y2: (y + h) as i32 }),
    {
        Rect { x1: x, x2: x + w, y1: y, y2: y + h }
    }

    pub fn intersect(&self, other: &Rect) -> (b: bool)
        ensures
            b == self.spec_intersect(*other),
    {
        self.x1 <= other.x2 && self.x2 >= other.x1 && self.y1 <= other.y2 && self.y2 >= other.y1
    }

    pub fn center(&self) -> (p: Point)
        ensures
            p == self.spec_center(),
    {
        let sx: i64 = self.x1 as i64 + self.x2 as i64;
        let sy: i64 = self.y1 as i64 + self.y2 as i64;
        Point { x: (sx / 2) as i32, y: (sy / 2) as i32 }
    }

    pub fn point_in_rect(&self, point: Point) -> (b: bool)
        ensures
            b == self.spec_contains(point),
    {
        point.x >= self.x1 && point.x < self.x2 && point.y >= self.y1 && point.y < self.y2
    }
}

} // verus!
