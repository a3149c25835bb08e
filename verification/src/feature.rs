//! Features and the one operation on them.

use vstd::prelude::*;
use crate::error::{outcome, CentroidError};
use crate::path::{half_way, path_centroid, PathCoord, PathPosition};
use crate::point::{coords, Coord, Point, RationalCoord, RationalPoint};
use crate::ring::{centroid_of_ring, ring_centroid, MAX_RING_LEN};

verus! {

/// A feature that has a centroid.
pub trait Centroid {
    /// How a position on the feature is written down.
    type Position: View;

    /// Whether the sums taken over the feature are certain to fit the
    /// accumulators.
    spec fn within_limits(&self) -> bool;

    /// The centroid of the feature, or why it has none.
    spec fn spec_centroid(&self) -> Result<<Self::Position as View>::V, CentroidError>;

    /// Computes the centroid of the feature.
    fn centroid(&self) -> (out: Result<Self::Position, CentroidError>)
        requires
            self.within_limits(),
        ensures
            outcome(out) == self.spec_centroid(),
    ;
}

/// A polygon: its outer ring first, then the rings of its holes.
pub struct Polygon {
    pub rings: Vec<Vec<Point>>,
}

impl View for Polygon {
    type V = Seq<Seq<Coord>>;

    open spec fn view(&self) -> Seq<Seq<Coord>> {
        Seq::new(self.rings@.len(), |i: int| coords(self.rings@[i]@))
    }
}

/// The centroid of a polygon is that of its outer ring: holes are not
/// taken out of it.
pub open spec fn polygon_centroid(rings: Seq<Seq<Coord>>) -> Result<RationalCoord, CentroidError> {
    if rings.len() == 0 {
        Err(CentroidError::InvalidGeometry)
    } else {
        ring_centroid(rings[0])
    }
}

impl Polygon {
    /// Makes a polygon of its rings, the outer one first.
    pub fn new(rings: Vec<Vec<Point>>) -> (polygon: Polygon)
        ensures
            polygon.rings == rings,
    {
        Polygon { rings }
    }
}

impl Centroid for Polygon {
    type Position = RationalPoint;

    open spec fn within_limits(&self) -> bool {
        self.rings@.len() > 0 ==> self.rings@[0]@.len() <= MAX_RING_LEN
    }

    open spec fn spec_centroid(&self) -> Result<RationalCoord, CentroidError> {
        polygon_centroid(self@)
    }

    fn centroid(&self) -> (out: Result<RationalPoint, CentroidError>) {
        if self.rings.len() == 0 {
            return Err(CentroidError::InvalidGeometry);
        }
        centroid_of_ring(&self.rings[0])
    }
}

/// A polyline, given by the measured lengths of its segments in order.
///
/// A polyline through `n` vertices has `n - 1` segments.
pub struct MeasuredPath {
    pub lengths: Vec<u64>,
}

impl View for MeasuredPath {
    type V = Seq<u64>;

    open spec fn view(&self) -> Seq<u64> {
        self.lengths@
    }
}

impl MeasuredPath {
    /// Makes a polyline of the lengths of its segments.
    pub fn new(lengths: Vec<u64>) -> (path: MeasuredPath)
        ensures
            path.lengths == lengths,
    {
        MeasuredPath { lengths }
    }
}

impl Centroid for MeasuredPath {
    type Position = PathPosition;

    open spec fn within_limits(&self) -> bool {
        true
    }

    open spec fn spec_centroid(&self) -> Result<PathCoord, CentroidError> {
        path_centroid(self@)
    }

    fn centroid(&self) -> (out: Result<PathPosition, CentroidError>) {
        half_way(&self.lengths)
    }
}

} // verus!
