//! Grid points and their mathematical coordinates.

use vstd::prelude::*;

verus! {

/// A position in the plane with unbounded integer coordinates.
///
/// This is the mathematical value that contracts speak of.
pub struct Coord {
    pub x: int,
    pub y: int,
}

/// A vertex on the integer grid.
///
/// The unit of the grid is the caller's choice: a feature given in decimal
/// degrees is usually stored in steps of 10^-7 degree, which fits in `i32`.
#[derive(Clone, Copy, Debug, PartialEq, Eq, Structural)]
pub struct Point {
    pub x: i32,
    pub y: i32,
}

impl View for Point {
    type V = Coord;

    open spec fn view(&self) -> Coord {
        Coord { x: self.x as int, y: self.y as int }
    }
}

impl Point {
    /// Makes the point `(x, y)`.
    pub fn new(x: i32, y: i32) -> (p: Point)
        ensures
            p.x == x,
            p.y == y,
    {
        Point { x, y }
    }
}

/// A position in the plane with rational coordinates `x_num / den` and
/// `y_num / den`.
pub struct RationalCoord {
    pub x_num: int,
    pub y_num: int,
    pub den: int,
}

impl RationalCoord {
    /// Whether two fractions name the same position.
    pub open spec fn same_position(self, other: RationalCoord) -> bool {
        &&& self.x_num * other.den == other.x_num * self.den
        &&& self.y_num * other.den == other.y_num * self.den
    }
}

/// A position between grid points: the fractions `x_num / den` and
/// `y_num / den`, in grid units.
///
/// The centroid functions hand out a positive `den`; the fraction is not
/// reduced.
#[derive(Clone, Copy, Debug, PartialEq, Eq, Structural)]
pub struct RationalPoint {
    pub x_num: i128,
    pub y_num: i128,
    pub den: i128,
}

impl View for RationalPoint {
    type V = RationalCoord;

    open spec fn view(&self) -> RationalCoord {
        RationalCoord { x_num: self.x_num as int, y_num: self.y_num as int, den: self.den as int }
    }
}

/// The coordinates of a chain of vertices, in order.
pub open spec fn coords(points: Seq<Point>) -> Seq<Coord> {
    Seq::new(points.len(), |i: int| points[i]@)
}

} // verus!
