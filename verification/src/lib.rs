//! Exact centroids of planar features on an integer grid.
//!
//! A polygon is reduced to the balance point of the area inside its outer
//! ring, a polyline to the position at half its measured length. All
//! arithmetic is done in integers: the centroid of a ring is handed out as
//! an exact fraction, the position on a polyline as a segment and an exact
//! offset into it. A feature that has no centroid is reported as such.
//!
//! - [`point`]: grid points, fractions, and the values contracts speak of.
//! - [`moments`]: the sums from which a ring's centroid is taken.
//! - [`ring`]: the centroid of a ring.
//! - [`path`]: the position at half the length of a polyline.
//! - [`feature`]: polygons, measured polylines and the [`Centroid`] trait.
//! - [`winding`], [`translation`], [`linear`], [`symmetry`]: what holds of the
//!   centroid of every ring, proved.

pub mod error;
pub mod feature;
pub mod linear;
pub mod moments;
pub mod path;
pub mod point;
pub mod ring;
pub mod symmetry;
pub mod translation;
pub mod winding;

pub use error::CentroidError;
pub use feature::{Centroid, MeasuredPath, Polygon};
pub use moments::{Moments, Sums};
pub use path::{PathCoord, PathPosition};
pub use point::{Coord, Point, RationalCoord, RationalPoint};
