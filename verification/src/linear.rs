//! How the centroid of a ring follows when the plane is mapped linearly.

use vstd::prelude::*;
use crate::moments::{chain_moments, moments_between, segment_moments, Moments};
use crate::point::{Coord, RationalCoord};
use crate::ring::{is_ring, lemma_is_ring_of_image, ring_centroid};
use crate::translation::{law_translation_covariance, translated};

verus! {

/// A linear map of the plane with integer entries: `(x, y)` goes to
/// `(xx * x + xy * y, yx * x + yy * y)`.
pub struct LinearMap {
    pub xx: int,
    pub xy: int,
    pub yx: int,
    pub yy: int,
}

impl LinearMap {
    /// The factor by which the map multiplies signed areas.
    pub open spec fn det(self) -> int {
        self.xx * self.yy - self.xy * self.yx
    }

    /// Where the map takes `p`.
    pub open spec fn apply(self, p: Coord) -> Coord {
        Coord { x: self.xx * p.x + self.xy * p.y, y: self.yx * p.x + self.yy * p.y }
    }

    /// Where the map takes the position `c`.
    pub open spec fn apply_rational(self, c: RationalCoord) -> RationalCoord {
        RationalCoord {
            x_num: self.xx * c.x_num + self.xy * c.y_num,
            y_num: self.yx * c.x_num + self.yy * c.y_num,
            den: c.den,
        }
    }

    /// What the map makes of the sums of a chain.
    pub open spec fn apply_moments(self, m: Moments) -> Moments {
        Moments {
            area: self.det() * m.area,
            x: self.det() * (self.xx * m.x + self.xy * m.y),
            y: self.det() * (self.yx * m.x + self.yy * m.y),
        }
    }
}

/// The chain with every vertex mapped.
pub open spec fn mapped(r: Seq<Coord>, m: LinearMap) -> Seq<Coord> {
    Seq::new(r.len(), |i: int| m.apply(r[i]))
}

/// Two products of two factors each, multiplied, with the inner factors
/// exchanged.
pub proof fn lemma_mul_interchange(p: int, q: int, r: int, s: int)
    ensures
        (p * q) * (r * s) == (p * r) * (q * s),
{
    vstd::arithmetic::mul::lemma_mul_is_associative(p, q, r * s);
    vstd::arithmetic::mul::lemma_mul_is_associative(q, r, s);
    vstd::arithmetic::mul::lemma_mul_is_commutative(q, r);
    vstd::arithmetic::mul::lemma_mul_is_associative(r, q, s);
    vstd::arithmetic::mul::lemma_mul_is_associative(p, r, q * s);
}

/// The cross product of a mapped segment is the segment's own, times the
/// determinant.
proof fn lemma_mapped_cross(m: LinearMap, a: int, b: int, c: int, d: int)
    ensures
        (m.yx * c + m.yy * d) * (m.xx * a + m.xy * b) - (m.yx * a + m.yy * b) * (m.xx * c + m.xy * d)
            == m.det() * (d * a - b * c),
{
    broadcast use vstd::arithmetic::mul::group_mul_is_distributive;
    broadcast use vstd::arithmetic::mul::lemma_mul_is_commutative;

    lemma_mul_interchange(m.yx, c, m.xx, a);
    lemma_mul_interchange(m.yx, c, m.xy, b);
    lemma_mul_interchange(m.yy, d, m.xx, a);
    lemma_mul_interchange(m.yy, d, m.xy, b);
    lemma_mul_interchange(m.yx, a, m.xx, c);
    lemma_mul_interchange(m.yx, a, m.xy, d);
    lemma_mul_interchange(m.yy, b, m.xx, c);
    lemma_mul_interchange(m.yy, b, m.xy, d);
    assert((m.yx * c + m.yy * d) * (m.xx * a + m.xy * b) == (m.yx * m.xx) * (c * a) + (m.yx * m.xy) * (c * b)
        + (m.yy * m.xx) * (d * a) + (m.yy * m.xy) * (d * b));
    assert((m.yx * a + m.yy * b) * (m.xx * c + m.xy * d) == (m.yx * m.xx) * (a * c) + (m.yx * m.xy) * (a * d)
        + (m.yy * m.xx) * (b * c) + (m.yy * m.xy) * (b * d));
    assert(m.det() * (d * a - b * c) == (m.xx * m.yy) * (d * a) - (m.xx * m.yy) * (b * c) - (m.xy * m.yx) * (d * a)
        + (m.xy * m.yx) * (b * c));
}

/// A weighted sum of two coordinate sums, times a multiple of the cross
/// product.
proof fn lemma_mapped_weight(u: int, v: int, s: int, t: int, k: int, f: int)
    ensures
        (u * s + v * t) * (k * f) == k * (u * (s * f) + v * (t * f)),
{
    vstd::arithmetic::mul::lemma_mul_is_distributive_add_other_way(k * f, u * s, v * t);
    lemma_mul_interchange(u, s, k, f);
    lemma_mul_interchange(v, t, k, f);
    vstd::arithmetic::mul::lemma_mul_is_commutative(u, k);
    vstd::arithmetic::mul::lemma_mul_is_commutative(v, k);
    vstd::arithmetic::mul::lemma_mul_is_associative(k, u, s * f);
    vstd::arithmetic::mul::lemma_mul_is_associative(k, v, t * f);
    vstd::arithmetic::mul::lemma_mul_is_distributive_add(k, u * (s * f), v * (t * f));
}

/// The sums of a mapped segment.
proof fn lemma_mapped_segment(m: LinearMap, p: Coord, q: Coord)
    ensures
        segment_moments(m.apply(p), m.apply(q)) == m.apply_moments(segment_moments(p, q)),
{
    broadcast use vstd::arithmetic::mul::group_mul_is_distributive;

    let f = q.y * p.x - p.y * q.x;
    lemma_mapped_cross(m, p.x, p.y, q.x, q.y);
    assert(m.det() * (3 * f) == 3 * (m.det() * f)) by {
        vstd::arithmetic::mul::lemma_mul_is_associative(m.det(), 3, f);
        vstd::arithmetic::mul::lemma_mul_is_associative(3, m.det(), f);
    }
    assert(m.apply(q).x + m.apply(p).x == m.xx * (q.x + p.x) + m.xy * (q.y + p.y));
    assert(m.apply(q).y + m.apply(p).y == m.yx * (q.x + p.x) + m.yy * (q.y + p.y));
    lemma_mapped_weight(m.xx, m.xy, q.x + p.x, q.y + p.y, m.det(), f);
    lemma_mapped_weight(m.yx, m.yy, q.x + p.x, q.y + p.y, m.det(), f);
}

/// Mapping is additive on sums.
proof fn lemma_apply_moments_plus(m: LinearMap, s: Moments, t: Moments)
    ensures
        m.apply_moments(s.plus(t)) == m.apply_moments(s).plus(m.apply_moments(t)),
{
    broadcast use vstd::arithmetic::mul::group_mul_is_distributive;

}

/// The sums over a stretch of the mapped chain.
proof fn lemma_mapped_between(r: Seq<Coord>, m: LinearMap, lo: int, hi: int)
    requires
        0 <= lo <= hi < r.len(),
    ensures
        moments_between(mapped(r, m), lo, hi) == m.apply_moments(moments_between(r, lo, hi)),
    decreases hi - lo,
{
    let t = mapped(r, m);
    if lo < hi {
        lemma_mapped_between(r, m, lo, hi - 1);
        lemma_mapped_segment(m, r[hi - 1], r[hi]);
        assert(t[hi - 1] == m.apply(r[hi - 1]));
        assert(t[hi] == m.apply(r[hi]));
        lemma_apply_moments_plus(m, moments_between(r, lo, hi - 1), segment_moments(r[hi - 1], r[hi]));
    } else {
        lemma_apply_moments_zero(m);
    }
}

/// A map makes nothing of sums that are zero.
proof fn lemma_apply_moments_zero(m: LinearMap)
    ensures
        m.apply_moments(Moments::zero()) == Moments::zero(),
{
    broadcast use vstd::arithmetic::mul::group_mul_basics;

}

/// Mapping a chain maps its sums: the area sum is multiplied by the
/// determinant, the other two are mapped as a position is and multiplied by
/// the determinant.
pub proof fn lemma_mapped_moments(r: Seq<Coord>, m: LinearMap)
    ensures
        chain_moments(mapped(r, m)) == m.apply_moments(chain_moments(r)),
{
    if r.len() > 0 {
        lemma_mapped_between(r, m, 0, r.len() - 1);
    } else {
        lemma_apply_moments_zero(m);
    }
}

/// One unknown of a pair of linear equations, eliminated: `s` times the
/// first equation less `q` times the second leaves `(p * s - q * r) * x`.
proof fn lemma_eliminate(p: int, q: int, r: int, s: int, x: int, y: int)
    ensures
        s * (p * x + q * y) - q * (r * x + s * y) == (p * s - q * r) * x,
{
    vstd::arithmetic::mul::lemma_mul_is_distributive_add(s, p * x, q * y);
    vstd::arithmetic::mul::lemma_mul_is_distributive_add(q, r * x, s * y);
    vstd::arithmetic::mul::lemma_mul_is_associative(s, p, x);
    vstd::arithmetic::mul::lemma_mul_is_associative(s, q, y);
    vstd::arithmetic::mul::lemma_mul_is_associative(q, r, x);
    vstd::arithmetic::mul::lemma_mul_is_associative(q, s, y);
    vstd::arithmetic::mul::lemma_mul_is_commutative(s, q);
    vstd::arithmetic::mul::lemma_mul_is_commutative(s, p);
    vstd::arithmetic::mul::lemma_mul_is_distributive_sub_other_way(x, p * s, q * r);
}

/// A map whose determinant is not zero takes nothing but the origin to the
/// origin.
proof fn lemma_kernel_is_trivial(m: LinearMap, ex: int, ey: int)
    requires
        m.det() != 0,
        m.xx * ex + m.xy * ey == 0,
        m.yx * ex + m.yy * ey == 0,
    ensures
        ex == 0,
        ey == 0,
{
    lemma_eliminate(m.xx, m.xy, m.yx, m.yy, ex, ey);
    lemma_eliminate(m.yy, m.yx, m.xy, m.xx, ey, ex);
    vstd::arithmetic::mul::lemma_mul_basics(m.yy);
    vstd::arithmetic::mul::lemma_mul_basics(m.xy);
    vstd::arithmetic::mul::lemma_mul_basics(m.xx);
    vstd::arithmetic::mul::lemma_mul_basics(m.yx);
    vstd::arithmetic::mul::lemma_mul_is_commutative(m.yy, m.xx);
    vstd::arithmetic::mul::lemma_mul_is_commutative(m.yx, m.xy);
    vstd::arithmetic::mul::lemma_mul_nonzero(m.det(), ex);
    vstd::arithmetic::mul::lemma_mul_nonzero(m.det(), ey);
}

/// A map whose determinant is not zero keeps different positions apart.
proof fn lemma_mapped_apart(m: LinearMap, p: Coord, q: Coord)
    requires
        m.det() != 0,
    ensures
        (m.apply(p) == m.apply(q)) == (p == q),
{
    if m.apply(p) == m.apply(q) {
        vstd::arithmetic::mul::lemma_mul_is_distributive_sub(m.xx, p.x, q.x);
        vstd::arithmetic::mul::lemma_mul_is_distributive_sub(m.xy, p.y, q.y);
        vstd::arithmetic::mul::lemma_mul_is_distributive_sub(m.yx, p.x, q.x);
        vstd::arithmetic::mul::lemma_mul_is_distributive_sub(m.yy, p.y, q.y);
        lemma_kernel_is_trivial(m, p.x - q.x, p.y - q.y);
    }
}

/// A chain and its image under a map whose determinant is not zero are
/// rings together.
pub proof fn lemma_mapped_is_ring(r: Seq<Coord>, m: LinearMap)
    requires
        m.det() != 0,
    ensures
        is_ring(mapped(r, m)) == is_ring(r),
{
    let t = mapped(r, m);
    assert forall|i: int, j: int| 0 <= i < r.len() && 0 <= j < r.len() implies ((#[trigger] t[i]
        == #[trigger] t[j]) <==> r[i] == r[j]) by {
        lemma_mapped_apart(m, r[i], r[j]);
    }
    lemma_is_ring_of_image(r, t);
}

/// The fraction `(k * w) / (k * d)` is the fraction `w / d`, whichever of
/// the two carries a sign on both its parts: stated by multiplying across.
proof fn lemma_mapped_fraction(k: int, w: int, d: int)
    ensures
        (k * w) * d == w * (k * d),
        (-(k * w)) * d == w * (-(k * d)),
        (k * w) * (-d) == (-w) * (k * d),
        (-(k * w)) * (-d) == (-w) * (-(k * d)),
{
    vstd::arithmetic::mul::lemma_mul_is_commutative(k, w);
    vstd::arithmetic::mul::lemma_mul_is_associative(w, k, d);
    vstd::arithmetic::mul::lemma_mul_unary_negation(k * w, d);
    vstd::arithmetic::mul::lemma_mul_unary_negation(-(k * w), d);
    vstd::arithmetic::mul::lemma_mul_unary_negation(w, k * d);
    vstd::arithmetic::mul::lemma_mul_unary_negation(-w, k * d);
}

/// Linear covariance: mapping every vertex of a ring by a linear map whose
/// determinant is not zero maps its centroid by the same map; a chain
/// without a centroid has none when mapped, for the same reason.
pub proof fn law_linear_covariance(r: Seq<Coord>, m: LinearMap)
    requires
        m.det() != 0,
    ensures
        match (ring_centroid(mapped(r, m)), ring_centroid(r)) {
            (Ok(image), Ok(c)) => image.den > 0 && image.same_position(m.apply_rational(c)),
            (Err(e2), Err(e)) => e2 == e,
            _ => false,
        },
{
    lemma_mapped_is_ring(r, m);
    lemma_mapped_moments(r, m);
    let s = chain_moments(r);
    vstd::arithmetic::mul::lemma_mul_nonzero(m.det(), s.area);
    lemma_mapped_fraction(m.det(), m.xx * s.x + m.xy * s.y, s.area);
    lemma_mapped_fraction(m.det(), m.yx * s.x + m.yy * s.y, s.area);
    vstd::arithmetic::mul::lemma_mul_unary_negation(m.xx, s.x);
    vstd::arithmetic::mul::lemma_mul_unary_negation(m.xy, s.y);
    vstd::arithmetic::mul::lemma_mul_unary_negation(m.yx, s.x);
    vstd::arithmetic::mul::lemma_mul_unary_negation(m.yy, s.y);
}

/// Moving both of two fractions that name the same position by `shift`
/// leaves them naming the same position.
proof fn lemma_moved_fraction(n1: int, d1: int, n2: int, d2: int, shift: int)
    requires
        n1 * d2 == n2 * d1,
    ensures
        (n1 + shift * d1) * d2 == (n2 + shift * d2) * d1,
{
    vstd::arithmetic::mul::lemma_mul_is_distributive_add_other_way(d2, n1, shift * d1);
    vstd::arithmetic::mul::lemma_mul_is_distributive_add_other_way(d1, n2, shift * d2);
    vstd::arithmetic::mul::lemma_mul_is_associative(shift, d1, d2);
    vstd::arithmetic::mul::lemma_mul_is_associative(shift, d2, d1);
    vstd::arithmetic::mul::lemma_mul_is_commutative(d1, d2);
}

/// Affine covariance: mapping every vertex of a ring by a linear map whose
/// determinant is not zero and moving it by `(dx, dy)` does the same to its
/// centroid; a chain without a centroid has none afterwards, for the same
/// reason.
pub proof fn law_affine_covariance(r: Seq<Coord>, m: LinearMap, dx: int, dy: int)
    requires
        m.det() != 0,
    ensures
        match (ring_centroid(translated(mapped(r, m), dx, dy)), ring_centroid(r)) {
            (Ok(image), Ok(c)) => image.den > 0 && image.same_position(
                m.apply_rational(c).translated(dx, dy),
            ),
            (Err(e2), Err(e)) => e2 == e,
            _ => false,
        },
{
    law_linear_covariance(r, m);
    law_translation_covariance(mapped(r, m), dx, dy);
    if let (Ok(mid), Ok(c)) = (ring_centroid(mapped(r, m)), ring_centroid(r)) {
        let to = m.apply_rational(c);
        lemma_moved_fraction(mid.x_num, mid.den, to.x_num, to.den, dx);
        lemma_moved_fraction(mid.y_num, mid.den, to.y_num, to.den, dy);
    }
}

impl Coord {
    /// The position multiplied by `s`.
    pub open spec fn scaled(self, s: int) -> Coord {
        Coord { x: s * self.x, y: s * self.y }
    }
}

impl RationalCoord {
    /// The position multiplied by `s`.
    pub open spec fn scaled(self, s: int) -> RationalCoord {
        RationalCoord { x_num: s * self.x_num, y_num: s * self.y_num, den: self.den }
    }
}

/// The chain with every vertex multiplied by `s`.
pub open spec fn scaled(r: Seq<Coord>, s: int) -> Seq<Coord> {
    Seq::new(r.len(), |i: int| r[i].scaled(s))
}

/// The map that multiplies every position by `s`.
pub open spec fn scaling(s: int) -> LinearMap {
    LinearMap { xx: s, xy: 0, yx: 0, yy: s }
}

/// Multiplying by `s` is a linear map.
proof fn lemma_scaled_is_mapped(r: Seq<Coord>, s: int)
    ensures
        scaled(r, s) == mapped(r, scaling(s)),
        scaling(s).det() == s * s,
{
    assert forall|i: int| 0 <= i < r.len() implies r[i].scaled(s) == scaling(s).apply(r[i]) by {
        vstd::arithmetic::mul::lemma_mul_basics(r[i].x);
        vstd::arithmetic::mul::lemma_mul_basics(r[i].y);
    }
    assert(scaled(r, s) =~= mapped(r, scaling(s)));
    vstd::arithmetic::mul::lemma_mul_basics(0);
}

/// Multiplying every vertex of a chain by `s` multiplies its area sum by
/// the square of `s` and its other sums by the cube of `s`.
pub proof fn lemma_scaled_moments(r: Seq<Coord>, s: int)
    ensures
        chain_moments(scaled(r, s)) == (Moments {
            area: (s * s) * chain_moments(r).area,
            x: (s * (s * s)) * chain_moments(r).x,
            y: (s * (s * s)) * chain_moments(r).y,
        }),
{
    let m = chain_moments(r);
    lemma_scaled_is_mapped(r, s);
    lemma_mapped_moments(r, scaling(s));
    vstd::arithmetic::mul::lemma_mul_basics(m.x);
    vstd::arithmetic::mul::lemma_mul_basics(m.y);
    vstd::arithmetic::mul::lemma_mul_is_associative(s * s, s, m.x);
    vstd::arithmetic::mul::lemma_mul_is_associative(s * s, s, m.y);
    vstd::arithmetic::mul::lemma_mul_is_commutative(s * s, s);
}

/// Scale covariance: multiplying every vertex of a ring by `s`, other than
/// zero, multiplies its centroid by `s`; a chain without a centroid has
/// none when scaled, for the same reason.
pub proof fn law_scale_covariance(r: Seq<Coord>, s: int)
    requires
        s != 0,
    ensures
        match (ring_centroid(scaled(r, s)), ring_centroid(r)) {
            (Ok(image), Ok(c)) => image.den > 0 && image.same_position(c.scaled(s)),
            (Err(e2), Err(e)) => e2 == e,
            _ => false,
        },
{
    lemma_scaled_is_mapped(r, s);
    vstd::arithmetic::mul::lemma_mul_nonzero(s, s);
    law_linear_covariance(r, scaling(s));
    if let Ok(c) = ring_centroid(r) {
        vstd::arithmetic::mul::lemma_mul_basics(c.x_num);
        vstd::arithmetic::mul::lemma_mul_basics(c.y_num);
    }
}

} // verus!
