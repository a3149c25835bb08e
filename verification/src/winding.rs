//! A ring may be walked either way round, and from any of its vertices.

use vstd::prelude::*;
use crate::moments::{
    chain_moments, cross, lemma_moments_shifted, lemma_moments_split, moments_between,
    segment_moments, Moments,
};
use crate::point::Coord;
use crate::ring::{is_closed, is_ring, lemma_three_distinct_witness, ring_centroid, three_distinct};

verus! {

/// A segment walked backwards contributes the opposite of what it
/// contributes walked forwards.
pub proof fn lemma_segment_backwards(p: Coord, q: Coord)
    ensures
        segment_moments(q, p) == segment_moments(p, q).negated(),
{
    assert(cross(q, p) == -cross(p, q));
    vstd::arithmetic::mul::lemma_mul_unary_negation(q.x + p.x, cross(p, q));
    vstd::arithmetic::mul::lemma_mul_unary_negation(q.y + p.y, cross(p, q));
}

/// The first `k` segments of the reversed chain are the last `k` segments
/// of the chain, each walked backwards.
proof fn lemma_reverse_between(r: Seq<Coord>, k: int)
    requires
        0 <= k < r.len(),
    ensures
        moments_between(r.reverse(), 0, k) == moments_between(
            r,
            r.len() - 1 - k,
            r.len() - 1,
        ).negated(),
    decreases k,
{
    let n = r.len() as int;
    let rev = r.reverse();
    if k > 0 {
        lemma_reverse_between(r, k - 1);
        assert(rev[k - 1] == r[n - k]);
        assert(rev[k] == r[n - 1 - k]);
        lemma_segment_backwards(r[n - 1 - k], r[n - k]);
        lemma_moments_split(r, n - 1 - k, n - k, n - 1);
        assert(moments_between(r, n - 1 - k, n - k) == segment_moments(r[n - 1 - k], r[n - k])) by {
            assert(moments_between(r, n - 1 - k, n - 1 - k) == Moments::zero());
        }
    }
}

/// Reversing a chain negates its sums.
pub proof fn lemma_reverse_moments(r: Seq<Coord>)
    ensures
        chain_moments(r.reverse()) == chain_moments(r).negated(),
{
    if r.len() > 0 {
        lemma_reverse_between(r, r.len() - 1);
    }
}

/// A chain and its reverse are rings together.
pub proof fn lemma_reverse_is_ring(r: Seq<Coord>)
    ensures
        is_ring(r.reverse()) == is_ring(r),
{
    let n = r.len() as int;
    let rev = r.reverse();
    if n > 0 {
        assert(rev[0] == r[n - 1] && rev[n - 1] == r[0]);
        assert(is_closed(rev) == is_closed(r));
        if three_distinct(r) {
            let (i, j, k) = lemma_three_distinct_witness(r);
            assert(rev[n - 1 - i] == r[i] && rev[n - 1 - j] == r[j] && rev[n - 1 - k] == r[k]);
            assert(three_distinct(rev));
        }
        if three_distinct(rev) {
            let (i, j, k) = lemma_three_distinct_witness(rev);
            assert(rev[i] == r[n - 1 - i] && rev[j] == r[n - 1 - j] && rev[k] == r[n - 1 - k]);
            assert(three_distinct(r));
        }
    }
}

/// Winding invariance: a ring walked the other way round has the same
/// centroid, and a chain that has none has none walked backwards either,
/// for the same reason.
pub proof fn law_winding_invariance(r: Seq<Coord>)
    ensures
        ring_centroid(r.reverse()) == ring_centroid(r),
{
    lemma_reverse_is_ring(r);
    lemma_reverse_moments(r);
}

/// The closed chain `r` walked from its vertex `k`: the vertices from `k`
/// to the end, then those from the second one up to `k` again.
pub open spec fn rotated(r: Seq<Coord>, k: int) -> Seq<Coord> {
    Seq::new(
        r.len(),
        |i: int|
            if k + i < r.len() {
                r[k + i]
            } else {
                r[k + i - (r.len() - 1)]
            },
    )
}

/// Walking a closed chain from another vertex leaves its sums unchanged.
pub proof fn lemma_rotated_moments(r: Seq<Coord>, k: int)
    requires
        is_closed(r),
        0 <= k < r.len(),
    ensures
        chain_moments(rotated(r, k)) == chain_moments(r),
{
    let n = r.len() as int;
    let t = rotated(r, k);
    assert forall|i: int| 0 <= i <= n - 1 - k implies #[trigger] t[i] == r[i + k] by {}
    lemma_moments_shifted(t, r, 0, n - 1 - k, k);
    assert forall|i: int| n - 1 - k <= i <= n - 1 implies #[trigger] t[i] == r[i + (k - (n - 1))] by {}
    lemma_moments_shifted(t, r, n - 1 - k, n - 1, k - (n - 1));
    lemma_moments_split(t, 0, n - 1 - k, n - 1);
    lemma_moments_split(r, 0, k, n - 1);
}

/// Where vertex `i` of a closed chain of `n` vertices stands once the chain
/// is walked from vertex `k`.
pub open spec fn place_after_rotation(n: int, k: int, i: int) -> int {
    if i >= k {
        i - k
    } else {
        i + n - 1 - k
    }
}

/// Which vertex of a closed chain of `n` vertices stands at place `i` once
/// the chain is walked from vertex `k`.
pub open spec fn place_before_rotation(n: int, k: int, i: int) -> int {
    if k + i < n {
        k + i
    } else {
        k + i - (n - 1)
    }
}

/// Every vertex of a closed chain is met again when the chain is walked
/// from vertex `k`, and nothing else is.
proof fn lemma_rotated_vertex(r: Seq<Coord>, k: int, i: int)
    requires
        is_closed(r),
        0 <= k < r.len(),
        0 <= i < r.len(),
    ensures
        0 <= place_after_rotation(r.len() as int, k, i) < r.len(),
        rotated(r, k)[place_after_rotation(r.len() as int, k, i)] == r[i],
        0 <= place_before_rotation(r.len() as int, k, i) < r.len(),
        rotated(r, k)[i] == r[place_before_rotation(r.len() as int, k, i)],
{
}

/// Walking a closed chain from another vertex visits the same vertices.
pub proof fn lemma_rotated_is_ring(r: Seq<Coord>, k: int)
    requires
        is_closed(r),
        0 <= k < r.len(),
    ensures
        is_ring(rotated(r, k)) == is_ring(r),
{
    let n = r.len() as int;
    let t = rotated(r, k);
    assert(t[0] == r[k] && t[n - 1] == r[k]);
    if three_distinct(r) {
        let (i, j, l) = lemma_three_distinct_witness(r);
        lemma_rotated_vertex(r, k, i);
        lemma_rotated_vertex(r, k, j);
        lemma_rotated_vertex(r, k, l);
        let ti = place_after_rotation(n, k, i);
        let tj = place_after_rotation(n, k, j);
        let tl = place_after_rotation(n, k, l);
        assert(t[ti] != t[tj] && t[ti] != t[tl] && t[tj] != t[tl]);
        assert(three_distinct(t));
    }
    if three_distinct(t) {
        let (i, j, l) = lemma_three_distinct_witness(t);
        lemma_rotated_vertex(r, k, i);
        lemma_rotated_vertex(r, k, j);
        lemma_rotated_vertex(r, k, l);
        let ri = place_before_rotation(n, k, i);
        let rj = place_before_rotation(n, k, j);
        let rl = place_before_rotation(n, k, l);
        assert(r[ri] != r[rj] && r[ri] != r[rl] && r[rj] != r[rl]);
        assert(three_distinct(r));
    }
}

/// A closed chain has the same centroid from whichever vertex it is walked.
pub proof fn law_start_invariance(r: Seq<Coord>, k: int)
    requires
        is_closed(r),
        0 <= k < r.len(),
    ensures
        ring_centroid(rotated(r, k)) == ring_centroid(r),
{
    lemma_rotated_is_ring(r, k);
    lemma_rotated_moments(r, k);
}

} // verus!
