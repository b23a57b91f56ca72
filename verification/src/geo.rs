//! Points and rectangles in fixed-point degrees, and the containment test.

use vstd::prelude::*;

verus! {

/// A position in fixed-point degrees: each field is decimal degrees times
/// ten million. Two points are the same place exactly when both fields agree.
#[derive(Clone, Copy, Debug, PartialEq, Eq, Structural, Hash)]
pub struct Point {
    pub latitude: i32,
    pub longitude: i32,
}

/// A region given by two opposite corners, in no particular order.
#[derive(Clone, Copy, Debug, PartialEq, Eq, Structural)]
pub struct Rectangle {
    pub lo: Point,
    pub hi: Point,
}

/// The smaller of two integers.
pub open spec fn lower(a: int, b: int) -> int {
    if a <= b {
        a
    } else {
        b
    }
}

/// The larger of two integers.
pub open spec fn upper(a: int, b: int) -> int {
    if a <= b {
        b
    } else {
        a
    }
}

impl Rectangle {
    /// Westernmost longitude of the region.
    pub open spec fn left(self) -> int {
        lower(self.lo.longitude as int, self.hi.longitude as int)
    }

    /// Easternmost longitude of the region.
    pub open spec fn right(self) -> int {
        upper(self.lo.longitude as int, self.hi.longitude as int)
    }

    /// Southernmost latitude of the region.
    pub open spec fn bottom(self) -> int {
        lower(self.lo.latitude as int, self.hi.latitude as int)
    }

    /// Northernmost latitude of the region.
    pub open spec fn top(self) -> int {
        upper(self.lo.latitude as int, self.hi.latitude as int)
    }

    /// Whether `point` lies in the region, borders included.
    pub open spec fn contains(self, point: Point) -> bool {
        &&& self.left() <= point.longitude <= self.right()
        &&& self.bottom() <= point.latitude <= self.top()
    }

    /// The same region with its corners exchanged.
    pub open spec fn swapped(self) -> Rectangle {
        Rectangle { lo: self.hi, hi: self.lo }
    }

    /// The same region with `lo` at the south-west and `hi` at the north-east.
    pub open spec fn canonical(self) -> Rectangle {
        Rectangle {
            lo: Point { latitude: self.bottom() as i32, longitude: self.left() as i32 },
            hi: Point { latitude: self.top() as i32, longitude: self.right() as i32 },
        }
    }
}

/// Indicates whether the given point is in the range of the given rectangle.
///
/// The corners may come in any order: each axis is bounded by the smaller and
/// the larger of the two corner coordinates, both inclusive.
pub fn in_range(point: &Point, rect: &Rectangle) -> (inside: bool)
    ensures
        inside == rect.contains(*point),
{
    let left: i32 = if rect.lo.longitude <= rect.hi.longitude {
        rect.lo.longitude
    } else {
        rect.hi.longitude
    };
    let right: i32 = if rect.lo.longitude <= rect.hi.longitude {
        rect.hi.longitude
    } else {
        rect.lo.longitude
    };
    let top: i32 = if rect.lo.latitude <= rect.hi.latitude {
        rect.hi.latitude
    } else {
        rect.lo.latitude
    };
    let bottom: i32 = if rect.lo.latitude <= rect.hi.latitude {
        rect.lo.latitude
    } else {
        rect.hi.latitude
    };

    let lat: i32 = point.latitude;
    let lon: i32 = point.longitude;

    lon >= left && lon <= right && lat >= bottom && lat <= top
}

/// Containment does not depend on the order of the corners: exchanging them,
/// or putting them in south-west / north-east order, changes no answer.
pub proof fn lemma_in_range_ignores_corner_order(point: Point, rect: Rectangle)
    ensures
        rect.swapped().contains(point) == rect.contains(point),
        rect.canonical().contains(point) == rect.contains(point),
{
}

/// Two rectangles that span the same bounds on both axes contain the same
/// points, however their corners are arranged.
pub proof fn lemma_in_range_depends_on_bounds_only(point: Point, a: Rectangle, b: Rectangle)
    requires
        a.left() == b.left(),
        a.right() == b.right(),
        a.bottom() == b.bottom(),
        a.top() == b.top(),
    ensures
        a.contains(point) == b.contains(point),
{
}

} // verus!
