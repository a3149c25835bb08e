//! How the centroid of a ring follows when the ring is moved.

use vstd::prelude::*;
use crate::moments::{chain_moments, moments_between, segment_moments, Moments};
use crate::point::{Coord, RationalCoord};
use crate::ring::{is_closed, is_ring, lemma_is_ring_of_image, ring_centroid};

verus! {

impl Coord {
    /// The position moved by `(dx, dy)`.
    pub open spec fn translated(self, dx: int, dy: int) -> Coord {
        Coord { x: self.x + dx, y: self.y + dy }
    }
}

impl RationalCoord {
    /// The position moved by `(dx, dy)`.
    pub open spec fn translated(self, dx: int, dy: int) -> RationalCoord {
        RationalCoord {
            x_num: self.x_num + dx * self.den,
            y_num: self.y_num + dy * self.den,
            den: self.den,
        }
    }
}

/// The chain with every vertex moved by `(dx, dy)`.
pub open spec fn translated(r: Seq<Coord>, dx: int, dy: int) -> Seq<Coord> {
    Seq::new(r.len(), |i: int| r[i].translated(dx, dy))
}

/// What a vertex `p` of an open chain leaves behind in the sums of the
/// translated chain: the sums of a translated chain differ from those
/// expected of a closed one by this quantity at its end less the same at
/// its start.
pub open spec fn translation_residue(p: Coord, dx: int, dy: int) -> Moments {
    Moments {
        area: 3 * (dx * p.y) - 3 * (dy * p.x),
        x: dx * (p.x * p.y) - dy * (p.x * p.x) + 2 * (dx * dx) * p.y - 2 * (dx * dy) * p.x,
        y: dx * (p.y * p.y) - dy * (p.x * p.y) + 2 * (dx * dy) * p.y - 2 * (dy * dy) * p.x,
    }
}

/// The cross product of a translated segment.
proof fn lemma_translated_cross(a: int, b: int, c: int, d: int, dx: int, dy: int)
    ensures
        (d + dy) * (a + dx) - (b + dy) * (c + dx) == (d * a - b * c) + (dx * d - dx * b) - (dy * c - dy * a),
{
    broadcast use vstd::arithmetic::mul::group_mul_is_distributive;

}

/// The abscissa sum of the translated segment from `(a, b)` to `(c, d)`.
proof fn lemma_translated_x(a: int, b: int, c: int, d: int, dx: int, dy: int)
    ensures
        ((c + dx) + (a + dx)) * ((d + dy) * (a + dx) - (b + dy) * (c + dx)) == (c + a) * (d * a - b * c)
            + dx * (3 * (d * a - b * c)) + (dx * (c * d) - dy * (c * c) + 2 * (dx * dx) * d - 2 * (dx * dy) * c)
            - (dx * (a * b) - dy * (a * a) + 2 * (dx * dx) * b - 2 * (dx * dy) * a),
{
    broadcast use vstd::arithmetic::mul::group_mul_is_distributive;
    broadcast use vstd::arithmetic::mul::lemma_mul_is_associative;

    let f = d * a - b * c;
    let g = (dx * d - dx * b) - (dy * c - dy * a);
    let s = c + a;
    lemma_translated_cross(a, b, c, d, dx, dy);
    assert((c + dx) + (a + dx) == s + 2 * dx);
    assert((s + 2 * dx) * (f + g) == s * f + s * g + 2 * (dx * f) + 2 * (dx * g));
    assert(dx * (3 * f) == 3 * (dx * f));
    assert(dx * g == (dx * dx) * d - (dx * dx) * b - (dx * dy) * c + (dx * dy) * a);
    assert(s * g - dx * f == dx * (c * d) - dx * (a * b) - dy * (c * c) + dy * (a * a));
}

/// The ordinate sum of the translated segment from `(a, b)` to `(c, d)`.
proof fn lemma_translated_y(a: int, b: int, c: int, d: int, dx: int, dy: int)
    ensures
        ((d + dy) + (b + dy)) * ((d + dy) * (a + dx) - (b + dy) * (c + dx)) == (d + b) * (d * a - b * c)
            + dy * (3 * (d * a - b * c)) + (dx * (d * d) - dy * (c * d) + 2 * (dx * dy) * d - 2 * (dy * dy) * c)
            - (dx * (b * b) - dy * (a * b) + 2 * (dx * dy) * b - 2 * (dy * dy) * a),
{
    broadcast use vstd::arithmetic::mul::group_mul_is_distributive;
    broadcast use vstd::arithmetic::mul::lemma_mul_is_associative;

    let f = d * a - b * c;
    let g = (dx * d - dx * b) - (dy * c - dy * a);
    let t = d + b;
    lemma_translated_cross(a, b, c, d, dx, dy);
    assert((d + dy) + (b + dy) == t + 2 * dy);
    assert((t + 2 * dy) * (f + g) == t * f + t * g + 2 * (dy * f) + 2 * (dy * g));
    assert(dy * (3 * f) == 3 * (dy * f));
    assert(dy * g == (dx * dy) * d - (dx * dy) * b - (dy * dy) * c + (dy * dy) * a);
    assert(t * g - dy * f == dx * (d * d) - dx * (b * b) - dy * (c * d) + dy * (a * b));
}

/// The sums of one translated segment.
proof fn lemma_translated_segment(p: Coord, q: Coord, dx: int, dy: int)
    ensures
        segment_moments(p.translated(dx, dy), q.translated(dx, dy)).area == segment_moments(p, q).area
            + translation_residue(q, dx, dy).area - translation_residue(p, dx, dy).area,
        segment_moments(p.translated(dx, dy), q.translated(dx, dy)).x == segment_moments(p, q).x + dx
            * segment_moments(p, q).area + translation_residue(q, dx, dy).x - translation_residue(
            p,
            dx,
            dy,
        ).x,
        segment_moments(p.translated(dx, dy), q.translated(dx, dy)).y == segment_moments(p, q).y + dy
            * segment_moments(p, q).area + translation_residue(q, dx, dy).y - translation_residue(
            p,
            dx,
            dy,
        ).y,
{
    lemma_translated_cross(p.x, p.y, q.x, q.y, dx, dy);
    lemma_translated_x(p.x, p.y, q.x, q.y, dx, dy);
    lemma_translated_y(p.x, p.y, q.x, q.y, dx, dy);
}

/// The sums over a stretch of the translated chain.
proof fn lemma_translated_between(r: Seq<Coord>, dx: int, dy: int, lo: int, hi: int)
    requires
        0 <= lo <= hi < r.len(),
    ensures
        moments_between(translated(r, dx, dy), lo, hi).area == moments_between(r, lo, hi).area
            + translation_residue(r[hi], dx, dy).area - translation_residue(r[lo], dx, dy).area,
        moments_between(translated(r, dx, dy), lo, hi).x == moments_between(r, lo, hi).x + dx
            * moments_between(r, lo, hi).area + translation_residue(r[hi], dx, dy).x
            - translation_residue(r[lo], dx, dy).x,
        moments_between(translated(r, dx, dy), lo, hi).y == moments_between(r, lo, hi).y + dy
            * moments_between(r, lo, hi).area + translation_residue(r[hi], dx, dy).y
            - translation_residue(r[lo], dx, dy).y,
    decreases hi - lo,
{
    let t = translated(r, dx, dy);
    if lo < hi {
        lemma_translated_between(r, dx, dy, lo, hi - 1);
        lemma_translated_segment(r[hi - 1], r[hi], dx, dy);
        assert(t[hi - 1] == r[hi - 1].translated(dx, dy));
        assert(t[hi] == r[hi].translated(dx, dy));
        let before = moments_between(r, lo, hi - 1).area;
        let last = segment_moments(r[hi - 1], r[hi]).area;
        vstd::arithmetic::mul::lemma_mul_is_distributive_add(dx, before, last);
        vstd::arithmetic::mul::lemma_mul_is_distributive_add(dy, before, last);
    } else {
        assert(dx * 0 == 0 && dy * 0 == 0);
    }
}

/// Translating a closed chain leaves its area sum unchanged and moves its
/// other sums by the area sum times the displacement.
pub proof fn lemma_translated_moments(r: Seq<Coord>, dx: int, dy: int)
    requires
        is_closed(r),
    ensures
        chain_moments(translated(r, dx, dy)) == (Moments {
            area: chain_moments(r).area,
            x: chain_moments(r).x + dx * chain_moments(r).area,
            y: chain_moments(r).y + dy * chain_moments(r).area,
        }),
{
    lemma_translated_between(r, dx, dy, 0, r.len() - 1);
}

/// A chain and its translation are rings together.
pub proof fn lemma_translated_is_ring(r: Seq<Coord>, dx: int, dy: int)
    ensures
        is_ring(translated(r, dx, dy)) == is_ring(r),
{
    lemma_is_ring_of_image(r, translated(r, dx, dy));
}

/// Translation covariance: moving every vertex of a ring by `(dx, dy)` moves
/// its centroid by `(dx, dy)`, exactly; a chain without a centroid has none
/// when moved, for the same reason.
pub proof fn law_translation_covariance(r: Seq<Coord>, dx: int, dy: int)
    ensures
        ring_centroid(translated(r, dx, dy)) == match ring_centroid(r) {
            Ok(c) => Ok(c.translated(dx, dy)),
            Err(e) => Err(e),
        },
{
    lemma_translated_is_ring(r, dx, dy);
    if is_ring(r) {
        lemma_translated_moments(r, dx, dy);
        let m = chain_moments(r);
        vstd::arithmetic::mul::lemma_mul_unary_negation(dx, m.area);
        vstd::arithmetic::mul::lemma_mul_unary_negation(dy, m.area);
    }
}

} // verus!
