use vstd::prelude::*;

verus! {

/// The distance between two coordinates on one axis.
pub open spec fn extent(a: int, b: int) -> int {
    if b - a < 0 {
        a - b
    } else {
        b - a
    }
}

/// The lower of two coordinates on one axis.
pub open spec fn lower(a: int, b: int) -> int {
    if a <= b {
        a
    } else {
        b
    }
}

/// The higher of two coordinates on one axis.
pub open spec fn upper(a: int, b: int) -> int {
    if a <= b {
        b
    } else {
        a
    }
}

/// `num_traits::Signed::abs` on an `i64`: the value when it is not negative,
/// its negation when it is. The negation of `i64::MIN` overflows, so that input
/// is left out.
#[verifier::external_body]
fn signed_abs(v: i64) -> (r: i64)
    requires
        v != i64::MIN,
    ensures
        r as int == (if v < 0 { -(v as int) } else { v as int }),
{
    num_traits::Signed::abs(&v)
}

/// A point with signed integer coordinates.
#[derive(Debug, Clone, Copy, PartialEq, Eq)]
pub struct Point {
    pub x: i64,
    pub y: i64,
}

impl Point {
    pub fn x(&self) -> (r: i64)
        ensures
            r == self.x,
    {
        self.x
    }

    pub fn y(&self) -> (r: i64)
        ensures
            r == self.y,
    {
        self.y
    }

    pub fn set_x(&mut self, x: i64)
        ensures
            final(self).x == x,
            final(self).y == old(self).y,
    {
        self.x = x
    }

    pub fn set_y(&mut self, y: i64)
        ensures
            final(self).y == y,
            final(self).x == old(self).x,
    {
        self.y = y
    }
}

/// An axis-parallel rectangle given by two opposite corners.
#[derive(Debug, Clone, Copy, PartialEq, Eq)]
pub struct Rectangle {
    pub pt1: Point,
    pub pt2: Point,
}

impl Rectangle {
    /// The extent along the x axis.
    pub fn length(&self) -> (r: i64)
        requires
            i64::MIN < self.pt2.x - self.pt1.x <= i64::MAX,
        ensures
            r == extent(self.pt1.x as int, self.pt2.x as int),
            r >= 0,
            r == self.pt2.x - self.pt1.x || r == self.pt1.x - self.pt2.x,
    {
        signed_abs(self.pt2.x() - self.pt1.x())
    }

    /// The extent along the y axis.
    pub fn width(&self) -> (r: i64)
        requires
            i64::MIN < self.pt2.y - self.pt1.y <= i64::MAX,
        ensures
            r == extent(self.pt1.y as int, self.pt2.y as int),
            r >= 0,
            r == self.pt2.y - self.pt1.y || r == self.pt1.y - self.pt2.y,
    {
        signed_abs(self.pt2.y() - self.pt1.y())
    }

    /// The x coordinate of the lower left corner.
    pub fn llx(&self) -> (r: i64)
        ensures
            r == lower(self.pt1.x as int, self.pt2.x as int),
            r <= self.pt1.x && r <= self.pt2.x,
            r == self.pt1.x || r == self.pt2.x,
    {
        let a = self.pt1.x();
        let b = self.pt2.x();
        if a <= b {
            a
        } else {
            b
        }
    }

    /// The y coordinate of the lower left corner.
    pub fn lly(&self) -> (r: i64)
        ensures
            r == lower(self.pt1.y as int, self.pt2.y as int),
            r <= self.pt1.y && r <= self.pt2.y,
            r == self.pt1.y || r == self.pt2.y,
    {
        let a = self.pt1.y();
        let b = self.pt2.y();
        if a <= b {
            a
        } else {
            b
        }
    }
}

/// On each axis the rectangle spans from its lower corner, over its extent, to
/// its higher corner; the lower corner is at or below both corners.
pub proof fn lemma_rectangle_span(a: int, b: int)
    ensures
        lower(a, b) + extent(a, b) == upper(a, b),
        lower(a, b) <= a && lower(a, b) <= b,
        extent(a, b) >= 0,
{
}

/// Naming the corners in the other order gives the same rectangle: the same
/// lower corner and the same extents.
pub proof fn lemma_rectangle_corner_order(r: Rectangle)
    ensures
        extent(r.pt1.x as int, r.pt2.x as int) == extent(r.pt2.x as int, r.pt1.x as int),
        extent(r.pt1.y as int, r.pt2.y as int) == extent(r.pt2.y as int, r.pt1.y as int),
        lower(r.pt1.x as int, r.pt2.x as int) == lower(r.pt2.x as int, r.pt1.x as int),
        lower(r.pt1.y as int, r.pt2.y as int) == lower(r.pt2.y as int, r.pt1.y as int),
{
}

/// On one axis, the extent is the distance between the two coordinates: never
/// negative, and one coordinate minus the other; the lower coordinate is at or
/// below both and is one of them.
pub proof fn lemma_extent_and_lower(a: int, b: int)
    ensures
        extent(a, b) >= 0,
        extent(a, b) == b - a || extent(a, b) == a - b,
        lower(a, b) <= a && lower(a, b) <= b,
        lower(a, b) == a || lower(a, b) == b,
{
}

} // verus!
