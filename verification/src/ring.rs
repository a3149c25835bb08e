//! The centroid of a closed ring.

use vstd::prelude::*;
use crate::error::{outcome, CentroidError};
use crate::moments::{chain_moments, cross, moments_between, segment_moments, Moments, Sums};
use crate::point::{coords, Coord, Point, RationalCoord, RationalPoint};

verus! {

/// The longest chain of vertices whose sums are certain to fit the
/// accumulators.
pub const MAX_RING_LEN: usize = 0xffff_ffff;

/// Whether the chain ends where it starts.
pub open spec fn is_closed(r: Seq<Coord>) -> bool {
    r.len() > 0 && r[0] == r[r.len() - 1]
}

/// Whether three of the chain's vertices are pairwise different.
pub open spec fn three_distinct(r: Seq<Coord>) -> bool {
    exists|i: int, j: int, k: int|
        0 <= i < r.len() && 0 <= j < r.len() && 0 <= k < r.len() && #[trigger] r[i] != #[trigger] r[j]
            && r[i] != #[trigger] r[k] && r[j] != r[k]
}

/// Three places in the chain at which pairwise different vertices stand.
pub proof fn lemma_three_distinct_witness(r: Seq<Coord>) -> (w: (int, int, int))
    requires
        three_distinct(r),
    ensures
        0 <= w.0 < r.len(),
        0 <= w.1 < r.len(),
        0 <= w.2 < r.len(),
        r[w.0] != r[w.1],
        r[w.0] != r[w.2],
        r[w.1] != r[w.2],
{
    choose|i: int, j: int, k: int|
        0 <= i < r.len() && 0 <= j < r.len() && 0 <= k < r.len() && #[trigger] r[i] != #[trigger] r[j]
            && r[i] != #[trigger] r[k] && r[j] != r[k]
}

/// A chain that repeats the vertices of `r` place by place, each replaced
/// by another position and different ones by different ones, is a ring if
/// and only if `r` is.
pub proof fn lemma_is_ring_of_image(r: Seq<Coord>, t: Seq<Coord>)
    requires
        t.len() == r.len(),
        forall|i: int, j: int|
            0 <= i < r.len() && 0 <= j < r.len() ==> ((#[trigger] t[i] == #[trigger] t[j]) <==> r[i]
                == r[j]),
    ensures
        is_ring(t) == is_ring(r),
{
    if r.len() > 0 {
        assert(t[0] == t[t.len() - 1] <==> r[0] == r[r.len() - 1]);
    }
    if three_distinct(r) {
        let (i, j, k) = lemma_three_distinct_witness(r);
        assert(t[i] != t[j] && t[i] != t[k] && t[j] != t[k]);
    }
    if three_distinct(t) {
        let (i, j, k) = lemma_three_distinct_witness(t);
        assert(r[i] != r[j] && r[i] != r[k] && r[j] != r[k]);
    }
}

/// Whether the chain is a ring: closed, with at least three distinct
/// vertices.
pub open spec fn is_ring(r: Seq<Coord>) -> bool {
    is_closed(r) && three_distinct(r)
}

/// The centroid of the area that the ring encloses.
///
/// With `m` the ring's sums, the centroid is `(m.x / m.area, m.y / m.area)`.
/// The fraction carries a positive denominator, so that a ring and the same
/// ring walked the other way round give the same three numbers.
pub open spec fn ring_centroid(r: Seq<Coord>) -> Result<RationalCoord, CentroidError> {
    let m = chain_moments(r);
    if !is_ring(r) {
        Err(CentroidError::InvalidGeometry)
    } else if m.area == 0 {
        Err(CentroidError::DegenerateResult)
    } else if m.area > 0 {
        Ok(RationalCoord { x_num: m.x, y_num: m.y, den: m.area })
    } else {
        Ok(RationalCoord { x_num: -m.x, y_num: -m.y, den: -m.area })
    }
}

/// The largest magnitude that one segment between grid points adds to any
/// of the three sums: 2^95.
pub open spec fn segment_bound() -> int {
    0x8000_0000_0000_0000_0000_0000
}

/// Grid coordinates keep every term of a segment within `segment_bound()`.
proof fn lemma_segment_bound(p: Point, q: Point)
    ensures
        -0x4000_0000_0000_0000 <= q.y * p.x <= 0x4000_0000_0000_0000,
        -0x4000_0000_0000_0000 <= p.y * q.x <= 0x4000_0000_0000_0000,
        -0x8000_0000_0000_0000 <= cross(p@, q@) <= 0x8000_0000_0000_0000,
        -segment_bound() <= segment_moments(p@, q@).area <= segment_bound(),
        -segment_bound() <= segment_moments(p@, q@).x <= segment_bound(),
        -segment_bound() <= segment_moments(p@, q@).y <= segment_bound(),
{
    let a = p.x as int;
    let b = p.y as int;
    let c = q.x as int;
    let d = q.y as int;
    assert(-0x4000_0000_0000_0000 <= d * a <= 0x4000_0000_0000_0000) by (nonlinear_arith)
        requires
            -0x8000_0000 <= a <= 0x8000_0000,
            -0x8000_0000 <= d <= 0x8000_0000,
    ;
    assert(-0x4000_0000_0000_0000 <= b * c <= 0x4000_0000_0000_0000) by (nonlinear_arith)
        requires
            -0x8000_0000 <= b <= 0x8000_0000,
            -0x8000_0000 <= c <= 0x8000_0000,
    ;
    let f = cross(p@, q@);
    assert(f == d * a - b * c);
    let sx = c + a;
    let sy = d + b;
    assert(-0x8000_0000_0000_0000_0000_0000 <= sx * f <= 0x8000_0000_0000_0000_0000_0000)
        by (nonlinear_arith)
        requires
            -0x1_0000_0000 <= sx <= 0x1_0000_0000,
            -0x8000_0000_0000_0000 <= f <= 0x8000_0000_0000_0000,
    ;
    assert(-0x8000_0000_0000_0000_0000_0000 <= sy * f <= 0x8000_0000_0000_0000_0000_0000)
        by (nonlinear_arith)
        requires
            -0x1_0000_0000 <= sy <= 0x1_0000_0000,
            -0x8000_0000_0000_0000 <= f <= 0x8000_0000_0000_0000,
    ;
}

/// Tells whether the chain is closed.
pub fn ends_meet(ring: &Vec<Point>) -> (closed: bool)
    ensures
        closed == is_closed(coords(ring@)),
{
    let n = ring.len();
    if n == 0 {
        return false;
    }
    let first = ring[0];
    let last = ring[n - 1];
    assert(coords(ring@)[0] == first@ && coords(ring@)[n - 1] == last@);
    first.x == last.x && first.y == last.y
}

/// Tells whether three of the chain's vertices are pairwise different.
pub fn has_three_distinct(ring: &Vec<Point>) -> (found: bool)
    ensures
        found == three_distinct(coords(ring@)),
{
    let n = ring.len();
    let ghost r = coords(ring@);
    if n == 0 {
        return false;
    }
    let a = ring[0];
    let mut j: usize = 1;
    while j < n && ring[j] == a
        invariant
            1 <= j <= n,
            n == ring.len(),
            forall|t: int| 0 <= t < j ==> ring[t] == a,
        decreases n - j,
    {
        j += 1;
    }
    if j == n {
        assert forall|i: int| 0 <= i < n implies #[trigger] r[i] == a@ by {
            assert(ring[i] == a);
        }
        return false;
    }
    let b = ring[j];
    let mut k: usize = j + 1;
    while k < n && (ring[k] == a || ring[k] == b)
        invariant
            j < k <= n,
            n == ring.len(),
            forall|t: int| 0 <= t < k ==> ring[t] == a || ring[t] == b,
        decreases n - k,
    {
        k += 1;
    }
    if k == n {
        assert forall|i: int| 0 <= i < n implies #[trigger] r[i] == a@ || r[i] == b@ by {
            assert(ring[i] == a || ring[i] == b);
        }
        return false;
    }
    proof {
        let c = ring[k as int];
        assert(r[0] == a@ && r[j as int] == b@ && r[k as int] == c@);
        assert(a@ != b@ && a@ != c@ && b@ != c@);
    }
    true
}

/// Adds up the sums over all segments of the chain. None of them comes out
/// as the one number that cannot change its sign.
pub fn sum_moments(ring: &Vec<Point>) -> (sums: Sums)
    requires
        ring.len() <= MAX_RING_LEN,
    ensures
        sums@ == chain_moments(coords(ring@)),
        i128::MIN < sums.area,
        i128::MIN < sums.x,
        i128::MIN < sums.y,
{
    let n = ring.len();
    let ghost r = coords(ring@);
    let mut area: i128 = 0;
    let mut x_sum: i128 = 0;
    let mut y_sum: i128 = 0;
    if n == 0 {
        return Sums { area, x: x_sum, y: y_sum };
    }
    let mut i: usize = 1;
    while i < n
        invariant
            1 <= i <= n,
            n == ring.len(),
            n <= MAX_RING_LEN,
            r == coords(ring@),
            moments_between(r, 0, i - 1) == (Moments { area: area as int, x: x_sum as int, y: y_sum as int }),
            -(i - 1) * segment_bound() <= area <= (i - 1) * segment_bound(),
            -(i - 1) * segment_bound() <= x_sum <= (i - 1) * segment_bound(),
            -(i - 1) * segment_bound() <= y_sum <= (i - 1) * segment_bound(),
        decreases n - i,
    {
        let prev = ring[i - 1];
        let cur = ring[i];
        proof {
            lemma_segment_bound(prev, cur);
            assert(r[i - 1] == prev@ && r[i as int] == cur@);
        }
        let f: i128 = (cur.y as i128) * (prev.x as i128) - (prev.y as i128) * (cur.x as i128);
        assert(f == cross(prev@, cur@));
        x_sum = x_sum + ((cur.x as i128) + (prev.x as i128)) * f;
        y_sum = y_sum + ((cur.y as i128) + (prev.y as i128)) * f;
        area = area + f * 3;
        i += 1;
    }
    Sums { area, x: x_sum, y: y_sum }
}

/// Computes the centroid of the area that `ring` encloses.
///
/// The ring is given with its closing vertex: the last vertex repeats the
/// first. The result is the same whichever way round the ring is walked.
pub fn centroid_of_ring(ring: &Vec<Point>) -> (out: Result<RationalPoint, CentroidError>)
    requires
        ring.len() <= MAX_RING_LEN,
    ensures
        outcome(out) == ring_centroid(coords(ring@)),
{
    if !ends_meet(ring) || !has_three_distinct(ring) {
        return Err(CentroidError::InvalidGeometry);
    }
    let sums = sum_moments(ring);
    if sums.area == 0 {
        Err(CentroidError::DegenerateResult)
    } else if sums.area > 0 {
        Ok(RationalPoint { x_num: sums.x, y_num: sums.y, den: sums.area })
    } else {
        Ok(RationalPoint { x_num: -sums.x, y_num: -sums.y, den: -sums.area })
    }
}

} // verus!
