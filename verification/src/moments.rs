//! The sums from which the centroid of a ring is taken.
//!
//! Segment `i` of a chain `r` runs from `r[i - 1]` to `r[i]`. Each segment
//! contributes a cross product `f`, and the chain's sums are three times the
//! sum of all `f` (six times the signed area it encloses, when closed) and
//! the sums of `f` weighted by the segment's coordinate sums.

use vstd::prelude::*;
use crate::point::Coord;

verus! {

/// Area and first moments of a chain, each scaled by six.
pub struct Moments {
    /// Six times the signed area.
    pub area: int,
    /// Six times the signed area times the abscissa of the balance point.
    pub x: int,
    /// Six times the signed area times the ordinate of the balance point.
    pub y: int,
}

impl Moments {
    /// The sums of a chain without segments.
    pub open spec fn zero() -> Moments {
        Moments { area: 0, x: 0, y: 0 }
    }

    /// Componentwise sum.
    pub open spec fn plus(self, other: Moments) -> Moments {
        Moments { area: self.area + other.area, x: self.x + other.x, y: self.y + other.y }
    }

    /// Componentwise negation.
    pub open spec fn negated(self) -> Moments {
        Moments { area: -self.area, x: -self.x, y: -self.y }
    }
}

/// The sums of a chain between grid points, as they are computed.
#[derive(Clone, Copy, Debug, PartialEq, Eq, Structural)]
pub struct Sums {
    pub area: i128,
    pub x: i128,
    pub y: i128,
}

impl View for Sums {
    type V = Moments;

    open spec fn view(&self) -> Moments {
        Moments { area: self.area as int, x: self.x as int, y: self.y as int }
    }
}

/// The cross product of the segment from `p` to `q`: twice the signed area
/// of the triangle that the segment spans with the origin.
pub open spec fn cross(p: Coord, q: Coord) -> int {
    q.y * p.x - p.y * q.x
}

/// What the segment from `p` to `q` adds to the sums of its chain.
pub open spec fn segment_moments(p: Coord, q: Coord) -> Moments {
    Moments {
        area: 3 * cross(p, q),
        x: (q.x + p.x) * cross(p, q),
        y: (q.y + p.y) * cross(p, q),
    }
}

/// The sums over the segments `lo + 1 ..= hi` of `r`.
pub open spec fn moments_between(r: Seq<Coord>, lo: int, hi: int) -> Moments
    decreases hi - lo,
{
    if hi <= lo {
        Moments::zero()
    } else {
        moments_between(r, lo, hi - 1).plus(segment_moments(r[hi - 1], r[hi]))
    }
}

/// The sums over all segments of `r`.
pub open spec fn chain_moments(r: Seq<Coord>) -> Moments {
    moments_between(r, 0, r.len() - 1)
}

/// A range of segments may be cut anywhere: its sums are those of the two
/// parts together.
pub proof fn lemma_moments_split(r: Seq<Coord>, lo: int, mid: int, hi: int)
    requires
        lo <= mid <= hi,
    ensures
        moments_between(r, lo, hi) == moments_between(r, lo, mid).plus(
            moments_between(r, mid, hi),
        ),
    decreases hi - mid,
{
    if mid < hi {
        lemma_moments_split(r, lo, mid, hi - 1);
    }
}

/// Two chains that agree on a stretch of vertices, the second one `by`
/// places further on, have the same sums there.
pub proof fn lemma_moments_shifted(r: Seq<Coord>, s: Seq<Coord>, lo: int, hi: int, by: int)
    requires
        lo <= hi,
        forall|i: int| lo <= i <= hi ==> #[trigger] r[i] == s[i + by],
    ensures
        moments_between(r, lo, hi) == moments_between(s, lo + by, hi + by),
    decreases hi - lo,
{
    if lo < hi {
        lemma_moments_shifted(r, s, lo, hi - 1, by);
        assert(r[hi - 1] == s[hi - 1 + by]);
        assert(r[hi] == s[hi + by]);
    }
}

} // verus!
