//! Rings that are their own mirror image.

use vstd::prelude::*;
use crate::error::CentroidError;
use crate::linear::{
    lemma_mapped_moments, lemma_mul_interchange, lemma_scaled_moments, mapped, scaled, LinearMap,
};
use crate::moments::{chain_moments, Moments};
use crate::point::{Coord, RationalCoord};
use crate::ring::{is_closed, ring_centroid};
use crate::translation::{lemma_translated_moments, translated};
use crate::winding::{lemma_reverse_moments, lemma_rotated_moments, rotated};

verus! {

/// The straight line on which `a * x + b * y == c`.
pub struct Axis {
    pub a: int,
    pub b: int,
    pub c: int,
}

impl Axis {
    /// Whether the equation describes a line: not both of `a` and `b` are
    /// zero.
    pub open spec fn is_line(self) -> bool {
        self.a != 0 || self.b != 0
    }

    /// Whether the position `p` lies on the line.
    pub open spec fn passes_through(self, p: RationalCoord) -> bool {
        self.a * p.x_num + self.b * p.y_num == self.c * p.den
    }

    /// Whether `q` is the mirror image of `p` in the line: the point half
    /// way between them lies on the line, and the step from one to the
    /// other is at right angles to it.
    pub open spec fn mirrors(self, p: Coord, q: Coord) -> bool {
        &&& self.a * (p.x + q.x) + self.b * (p.y + q.y) == 2 * self.c
        &&& self.b * (q.x - p.x) == self.a * (q.y - p.y)
    }

    /// The squared length of the line's normal `(a, b)`.
    pub open spec fn norm(self) -> int {
        self.a * self.a + self.b * self.b
    }

    /// The reflection in the parallel line through the origin, times
    /// `norm()`.
    pub open spec fn reflection(self) -> LinearMap {
        LinearMap {
            xx: self.b * self.b - self.a * self.a,
            xy: -(2 * (self.a * self.b)),
            yx: -(2 * (self.a * self.b)),
            yy: self.a * self.a - self.b * self.b,
        }
    }
}

/// Whether the ring, walked the other way round from its vertex `k`, is the
/// mirror image of the ring in `axis`, vertex by vertex.
pub open spec fn mirrored_walk(r: Seq<Coord>, axis: Axis, k: int) -> bool {
    forall|i: int| 0 <= i < r.len() ==> axis.mirrors(r[i], #[trigger] rotated(r.reverse(), k)[i])
}

/// Whether the ring is symmetric about `axis`: its mirror image is the ring
/// itself, walked the other way round from one of its vertices.
pub open spec fn symmetric_about(r: Seq<Coord>, axis: Axis) -> bool {
    exists|k: int| 0 <= k < r.len() && #[trigger] mirrored_walk(r, axis, k)
}

/// The determinant of `reflection()` is minus the square of `norm()`.
proof fn lemma_reflection_det(axis: Axis)
    ensures
        axis.reflection().det() == -(axis.norm() * axis.norm()),
{
    let u = axis.a * axis.a;
    let v = axis.b * axis.b;
    let w = axis.a * axis.b;
    assert(w * w == u * v) by {
        lemma_mul_interchange(axis.a, axis.b, axis.a, axis.b);
    }
    assert((v - u) * (u - v) - (-(2 * w)) * (-(2 * w)) == -((u + v) * (u + v))) by {
        lemma_square_identity(u, v, w);
    }
}

/// `(v - u) * (u - v) - (2 * w)^2 == -(u + v)^2` where `w^2 == u * v`.
proof fn lemma_square_identity(u: int, v: int, w: int)
    requires
        w * w == u * v,
    ensures
        (v - u) * (u - v) - (-(2 * w)) * (-(2 * w)) == -((u + v) * (u + v)),
{
    broadcast use vstd::arithmetic::mul::group_mul_is_distributive;
    broadcast use vstd::arithmetic::mul::lemma_mul_is_commutative;

    assert((-(2 * w)) * (-(2 * w)) == 4 * (w * w)) by {
        vstd::arithmetic::mul::lemma_mul_cancels_negatives(2 * w, 2 * w);
        vstd::arithmetic::mul::lemma_mul_is_associative(2, w, 2 * w);
        vstd::arithmetic::mul::lemma_mul_is_associative(w, 2, w);
        vstd::arithmetic::mul::lemma_mul_is_associative(2, w, w);
    }
    assert((v - u) * (u - v) == v * u - v * v - u * u + u * v);
    assert((u + v) * (u + v) == u * u + u * v + v * u + v * v);
}

/// One coordinate of the mirror image of `(px, py)` in the line on which
/// `a * x + b * y == c`. With `a` and `b` exchanged, and the coordinates
/// with them, it gives the other coordinate.
proof fn lemma_mirror_coordinate(a: int, b: int, c: int, px: int, py: int, qx: int, qy: int)
    requires
        a * (px + qx) + b * (py + qy) == 2 * c,
        b * (qx - px) == a * (qy - py),
    ensures
        (a * a + b * b) * qx == (b * b - a * a) * px + (-(2 * (a * b))) * py + 2 * (a * c),
{
    broadcast use vstd::arithmetic::mul::group_mul_is_distributive;

    let aa = a * a;
    let bb = b * b;
    let ab = a * b;
    assert(a * (a * (px + qx) + b * (py + qy)) == aa * px + aa * qx + ab * py + ab * qy) by {
        vstd::arithmetic::mul::lemma_mul_is_associative(a, a, px + qx);
        vstd::arithmetic::mul::lemma_mul_is_associative(a, b, py + qy);
    }
    assert(a * (2 * c) == 2 * (a * c)) by {
        vstd::arithmetic::mul::lemma_mul_is_associative(a, 2, c);
        vstd::arithmetic::mul::lemma_mul_is_associative(2, a, c);
    }
    assert(b * (b * (qx - px)) == bb * qx - bb * px) by {
        vstd::arithmetic::mul::lemma_mul_is_associative(b, b, qx - px);
    }
    assert(b * (a * (qy - py)) == ab * qy - ab * py) by {
        vstd::arithmetic::mul::lemma_mul_is_associative(b, a, qy - py);
        vstd::arithmetic::mul::lemma_mul_is_commutative(b, a);
    }
    assert((-(2 * ab)) * py == -(2 * (ab * py))) by {
        vstd::arithmetic::mul::lemma_mul_unary_negation(2 * ab, py);
        vstd::arithmetic::mul::lemma_mul_is_associative(2, ab, py);
    }
}

/// The mirror image of `p` in `axis`, multiplied by `norm()`, is `p` mapped
/// by `reflection()` and moved by `(2 * a * c, 2 * b * c)`.
proof fn lemma_mirror_image(axis: Axis, p: Coord, q: Coord)
    requires
        axis.mirrors(p, q),
    ensures
        q.scaled(axis.norm()) == axis.reflection().apply(p).translated(
            2 * (axis.a * axis.c),
            2 * (axis.b * axis.c),
        ),
{
    lemma_mirror_coordinate(axis.a, axis.b, axis.c, p.x, p.y, q.x, q.y);
    lemma_mirror_coordinate(axis.b, axis.a, axis.c, p.y, p.x, q.y, q.x);
    vstd::arithmetic::mul::lemma_mul_is_commutative(axis.a, axis.b);
}

/// What is left of one of the two equations between the sums of a ring
/// and those of its mirror image: `a` times the amount by which the
/// centroid misses the line.
proof fn lemma_axis_factor(a: int, b: int, c: int, x: int, y: int, area: int)
    requires
        (a * a + b * b) * x == (b * b - a * a) * x + (-(2 * (a * b))) * y + (2 * (a * c)) * area,
    ensures
        a * (a * x + b * y - c * area) == 0,
{
    broadcast use vstd::arithmetic::mul::group_mul_is_distributive;

    let aa = a * a;
    let bb = b * b;
    let ab = a * b;
    let ac = a * c;
    assert((-(2 * ab)) * y == -(2 * (ab * y))) by {
        vstd::arithmetic::mul::lemma_mul_unary_negation(2 * ab, y);
        vstd::arithmetic::mul::lemma_mul_is_associative(2, ab, y);
    }
    assert((2 * ac) * area == 2 * (ac * area)) by {
        vstd::arithmetic::mul::lemma_mul_is_associative(2, ac, area);
    }
    assert(aa * x + ab * y - ac * area == 0);
    assert(a * (a * x + b * y - c * area) == aa * x + ab * y - ac * area) by {
        vstd::arithmetic::mul::lemma_mul_is_associative(a, a, x);
        vstd::arithmetic::mul::lemma_mul_is_associative(a, b, y);
        vstd::arithmetic::mul::lemma_mul_is_associative(a, c, area);
    }
}

/// One of the two equations between the sums of a ring and those of its
/// mirror image, with the common factor `n * n` taken out: `sum` is the sum
/// along one axis, `image` what the reflection makes of both sums along
/// that axis, and `shift` the displacement along it.
proof fn lemma_cancel_norm(n: int, det: int, sum: int, image: int, shift: int, area: int)
    requires
        n != 0,
        det == -(n * n),
        (n * (n * n)) * (-sum) == det * image + shift * (det * area),
    ensures
        n * sum == image + shift * area,
{
    let nn = n * n;
    vstd::arithmetic::mul::lemma_mul_nonzero(n, n);
    assert((n * nn) * (-sum) == -(nn * (n * sum))) by {
        vstd::arithmetic::mul::lemma_mul_unary_negation(n * nn, sum);
        vstd::arithmetic::mul::lemma_mul_is_commutative(n, nn);
        vstd::arithmetic::mul::lemma_mul_is_associative(nn, n, sum);
    }
    assert(det * image == -(nn * image)) by {
        vstd::arithmetic::mul::lemma_mul_unary_negation(nn, image);
    }
    assert(shift * (det * area) == -(nn * (shift * area))) by {
        vstd::arithmetic::mul::lemma_mul_unary_negation(nn, area);
        vstd::arithmetic::mul::lemma_mul_unary_negation(shift, nn * area);
        vstd::arithmetic::mul::lemma_mul_is_associative(shift, nn, area);
        vstd::arithmetic::mul::lemma_mul_is_commutative(shift, nn);
        vstd::arithmetic::mul::lemma_mul_is_associative(nn, shift, area);
    }
    vstd::arithmetic::mul::lemma_mul_is_distributive_add(nn, image, shift * area);
    vstd::arithmetic::mul::lemma_mul_equality_converse(nn, n * sum, image + shift * area);
}

/// A square is not negative, and zero only for zero.
proof fn lemma_square(x: int)
    ensures
        x * x >= 0,
        x != 0 ==> x * x > 0,
{
    if x > 0 {
        vstd::arithmetic::mul::lemma_mul_strictly_positive(x, x);
    } else if x < 0 {
        vstd::arithmetic::mul::lemma_mul_cancels_negatives(x, x);
        vstd::arithmetic::mul::lemma_mul_strictly_positive(-x, -x);
    }
}

/// The sums of a ring that is its own mirror image in a line balance on
/// that line.
proof fn lemma_balance(axis: Axis, m: Moments)
    requires
        axis.is_line(),
        (axis.norm() * (axis.norm() * axis.norm())) * (-m.x) == axis.reflection().apply_moments(m).x + (2
            * (axis.a * axis.c)) * axis.reflection().apply_moments(m).area,
        (axis.norm() * (axis.norm() * axis.norm())) * (-m.y) == axis.reflection().apply_moments(m).y + (2
            * (axis.b * axis.c)) * axis.reflection().apply_moments(m).area,
    ensures
        axis.a * m.x + axis.b * m.y == axis.c * m.area,
{
    let n = axis.norm();
    let refl = axis.reflection();
    lemma_reflection_det(axis);
    assert(n != 0) by {
        lemma_square(axis.a);
        lemma_square(axis.b);
    }
    lemma_cancel_norm(n, refl.det(), m.x, refl.xx * m.x + refl.xy * m.y, 2 * (axis.a * axis.c), m.area);
    lemma_cancel_norm(n, refl.det(), m.y, refl.yx * m.x + refl.yy * m.y, 2 * (axis.b * axis.c), m.area);
    lemma_axis_factor(axis.a, axis.b, axis.c, m.x, m.y, m.area);
    assert((axis.b * axis.b + axis.a * axis.a) * m.y == (axis.a * axis.a - axis.b * axis.b) * m.y + (-(2 * (axis.b
        * axis.a))) * m.x + (2 * (axis.b * axis.c)) * m.area) by {
        vstd::arithmetic::mul::lemma_mul_is_commutative(axis.a, axis.b);
    }
    lemma_axis_factor(axis.b, axis.a, axis.c, m.y, m.x, m.area);
    let miss = axis.a * m.x + axis.b * m.y - axis.c * m.area;
    vstd::arithmetic::mul::lemma_mul_nonzero(axis.a, miss);
    vstd::arithmetic::mul::lemma_mul_nonzero(axis.b, miss);
}

/// Symmetry: the centroid of a ring that is symmetric about a line lies on
/// that line.
pub proof fn law_symmetry(r: Seq<Coord>, axis: Axis, c: RationalCoord)
    requires
        axis.is_line(),
        symmetric_about(r, axis),
        ring_centroid(r) == Ok::<RationalCoord, CentroidError>(c),
    ensures
        axis.passes_through(c),
{
    let k = choose|k: int| 0 <= k < r.len() && #[trigger] mirrored_walk(r, axis, k);
    let n = axis.norm();
    let refl = axis.reflection();
    let dx = 2 * (axis.a * axis.c);
    let dy = 2 * (axis.b * axis.c);
    let m = chain_moments(r);
    let back = r.reverse();
    let s = rotated(back, k);
    assert(is_closed(back)) by {
        assert(back[0] == r[r.len() - 1] && back[back.len() - 1] == r[0]);
    }
    assert(chain_moments(s) == m.negated()) by {
        lemma_reverse_moments(r);
        lemma_rotated_moments(back, k);
    }
    let image = mapped(r, refl);
    assert(is_closed(image)) by {
        assert(image[0] == refl.apply(r[0]) && image[image.len() - 1] == refl.apply(r[r.len() - 1]));
    }
    assert(scaled(s, n) =~= translated(image, dx, dy)) by {
        assert forall|i: int| 0 <= i < r.len() implies scaled(s, n)[i] == translated(image, dx, dy)[i] by {
            assert(axis.mirrors(r[i], s[i]));
            lemma_mirror_image(axis, r[i], s[i]);
        }
    }
    lemma_scaled_moments(s, n);
    lemma_mapped_moments(r, refl);
    lemma_translated_moments(image, dx, dy);
    lemma_balance(axis, m);
    if m.area < 0 {
        vstd::arithmetic::mul::lemma_mul_unary_negation(axis.a, m.x);
        vstd::arithmetic::mul::lemma_mul_unary_negation(axis.b, m.y);
        vstd::arithmetic::mul::lemma_mul_unary_negation(axis.c, m.area);
    }
}

} // verus!
