//! Why a feature has no centroid.

use vstd::prelude::*;

verus! {

/// The ways in which a centroid can fail to exist.
#[derive(Clone, Copy, Debug, PartialEq, Eq, Structural)]
pub enum CentroidError {
    /// The feature is not a ring or a path at all: a ring that is empty, not
    /// closed or has fewer than three distinct vertices, a polygon without a
    /// ring, a path without a segment.
    InvalidGeometry,
    /// The ring is well formed but encloses no area, so that the weighted
    /// mean of its points is undefined.
    DegenerateResult,
}

/// What an outcome says in mathematical terms: the value of the position
/// found, or the error as it is.
pub open spec fn outcome<T: View>(out: Result<T, CentroidError>) -> Result<T::V, CentroidError> {
    match out {
        Ok(position) => Ok(position@),
        Err(e) => Err(e),
    }
}

} // verus!
