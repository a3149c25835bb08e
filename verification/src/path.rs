//! The position at half the length of a polyline.
//!
//! A polyline is given by the measured lengths of its segments, in whatever
//! unit and by whatever metric the caller measures. Where on the polyline its
//! length is halved is then a matter of exact sums.

use vstd::prelude::*;
use crate::error::{outcome, CentroidError};

verus! {

/// A position on a polyline: `twice_offset / 2` units of length into the
/// segment number `segment`, counted from zero.
pub struct PathCoord {
    pub segment: int,
    pub twice_offset: int,
}

/// A position on a polyline: `twice_offset / 2` units of length into the
/// segment number `segment`, counted from zero. The offset is kept doubled
/// so that half of an odd length is exact.
#[derive(Clone, Copy, Debug, PartialEq, Eq, Structural)]
pub struct PathPosition {
    pub segment: usize,
    pub twice_offset: u128,
}

impl View for PathPosition {
    type V = PathCoord;

    open spec fn view(&self) -> PathCoord {
        PathCoord { segment: self.segment as int, twice_offset: self.twice_offset as int }
    }
}

/// The length of the first `k` segments together.
pub open spec fn length_before(lengths: Seq<u64>, k: int) -> int
    decreases k,
{
    if k <= 0 {
        0
    } else {
        length_before(lengths, k - 1) + lengths[k - 1]
    }
}

/// The length of the whole polyline.
pub open spec fn total_length(lengths: Seq<u64>) -> int {
    length_before(lengths, lengths.len() as int)
}

/// Twice the length of the polyline from its start up to `pos`.
pub open spec fn twice_length_to(lengths: Seq<u64>, pos: PathCoord) -> int {
    2 * length_before(lengths, pos.segment) + pos.twice_offset
}

/// Whether `pos` is where the polyline's length is halved: a position on
/// one of its segments, with half the total length before it, on the first
/// segment whose end is at least that far from the start.
pub open spec fn is_half_way(lengths: Seq<u64>, pos: PathCoord) -> bool {
    &&& 0 <= pos.segment < lengths.len()
    &&& 0 <= pos.twice_offset <= 2 * lengths[pos.segment]
    &&& twice_length_to(lengths, pos) == total_length(lengths)
    &&& forall|j: int|
        0 <= j < pos.segment ==> 2 * #[trigger] length_before(lengths, j + 1) < total_length(lengths)
}

/// The length before a segment grows with the segment's number.
pub proof fn lemma_length_before_grows(lengths: Seq<u64>, i: int, j: int)
    requires
        0 <= i <= j,
    ensures
        0 <= length_before(lengths, i) <= length_before(lengths, j),
    decreases j,
{
    if i < j {
        lemma_length_before_grows(lengths, i, j - 1);
    } else if 0 < i {
        lemma_length_before_grows(lengths, i - 1, i - 1);
    }
}

/// A polyline's length is halved at one position only.
pub proof fn lemma_half_way_unique(lengths: Seq<u64>, p: PathCoord, q: PathCoord)
    requires
        is_half_way(lengths, p),
        is_half_way(lengths, q),
    ensures
        p == q,
{
    if p.segment < q.segment {
        assert(2 * length_before(lengths, p.segment + 1) < total_length(lengths));
    } else if q.segment < p.segment {
        assert(2 * length_before(lengths, q.segment + 1) < total_length(lengths));
    }
}

/// Walks on from segment `i`, every earlier segment ending short of half
/// the length, to the position at which the length is halved.
proof fn lemma_half_way_from(lengths: Seq<u64>, i: int) -> (pos: PathCoord)
    requires
        0 <= i < lengths.len(),
        forall|j: int| 0 <= j < i ==> 2 * #[trigger] length_before(lengths, j + 1) < total_length(lengths),
    ensures
        is_half_way(lengths, pos),
    decreases lengths.len() - i,
{
    lemma_length_before_grows(lengths, i, lengths.len() as int);
    if i > 0 {
        assert(2 * length_before(lengths, (i - 1) + 1) < total_length(lengths));
    }
    if 2 * length_before(lengths, i + 1) >= total_length(lengths) {
        PathCoord { segment: i, twice_offset: total_length(lengths) - 2 * length_before(lengths, i) }
    } else {
        lemma_half_way_from(lengths, i + 1)
    }
}

/// Every polyline with a segment has a position at which its length is
/// halved.
pub proof fn lemma_half_way_exists(lengths: Seq<u64>)
    requires
        lengths.len() > 0,
    ensures
        exists|pos: PathCoord| is_half_way(lengths, pos),
{
    let pos = lemma_half_way_from(lengths, 0);
    assert(is_half_way(lengths, pos));
}

/// The centroid of a polyline is where its length is halved. A polyline
/// without a segment has none.
pub open spec fn path_centroid(lengths: Seq<u64>) -> Result<PathCoord, CentroidError> {
    if lengths.len() == 0 {
        Err(CentroidError::InvalidGeometry)
    } else {
        Ok(choose|pos: PathCoord| is_half_way(lengths, pos))
    }
}

/// Bisection: the centroid of a polyline with a segment lies on the
/// polyline, with exactly half the total length before it.
pub proof fn law_bisection(lengths: Seq<u64>)
    requires
        lengths.len() > 0,
    ensures
        path_centroid(lengths) is Ok,
        is_half_way(lengths, path_centroid(lengths)->Ok_0),
        twice_length_to(lengths, path_centroid(lengths)->Ok_0) == total_length(lengths),
{
    lemma_half_way_exists(lengths);
}

/// The position at which a polyline is halved does not depend on the unit
/// in which its segments are measured: with every length multiplied by
/// `k`, the polyline is halved on the same segment, `k` times as far into
/// it.
pub proof fn law_unit_independence(lengths: Seq<u64>, finer: Seq<u64>, k: int, pos: PathCoord)
    requires
        k > 0,
        finer.len() == lengths.len(),
        forall|i: int| 0 <= i < lengths.len() ==> #[trigger] finer[i] == k * lengths[i],
        is_half_way(lengths, pos),
    ensures
        is_half_way(finer, PathCoord { segment: pos.segment, twice_offset: k * pos.twice_offset }),
{
    let n = lengths.len() as int;
    let total = total_length(lengths);
    let before = length_before(lengths, pos.segment);
    let len = lengths[pos.segment] as int;
    lemma_length_before_scaled(lengths, finer, k, n);
    lemma_length_before_scaled(lengths, finer, k, pos.segment);
    assert(2 * (k * before) + k * pos.twice_offset == k * total) by {
        lemma_twice_scaled(k, before);
        vstd::arithmetic::mul::lemma_mul_is_distributive_add(k, 2 * before, pos.twice_offset);
    }
    assert(0 <= k * pos.twice_offset <= 2 * (k * len)) by {
        lemma_twice_scaled(k, len);
        vstd::arithmetic::mul::lemma_mul_nonnegative(k, pos.twice_offset);
        vstd::arithmetic::mul::lemma_mul_left_inequality(k, pos.twice_offset, 2 * len);
    }
    assert forall|j: int| 0 <= j < pos.segment implies 2 * #[trigger] length_before(finer, j + 1)
        < total_length(finer) by {
        let part = length_before(lengths, j + 1);
        lemma_length_before_scaled(lengths, finer, k, j + 1);
        lemma_twice_scaled(k, part);
        vstd::arithmetic::mul::lemma_mul_strict_inequality(2 * part, total, k);
        vstd::arithmetic::mul::lemma_mul_is_commutative(k, 2 * part);
        vstd::arithmetic::mul::lemma_mul_is_commutative(k, total);
    }
}

/// Doubling and multiplying by `k` may be done in either order.
proof fn lemma_twice_scaled(k: int, x: int)
    ensures
        k * (2 * x) == 2 * (k * x),
{
    vstd::arithmetic::mul::lemma_mul_is_associative(k, 2, x);
    vstd::arithmetic::mul::lemma_mul_is_associative(2, k, x);
}

/// With every length multiplied by `k`, so is the length of the first `i`
/// segments together.
proof fn lemma_length_before_scaled(lengths: Seq<u64>, finer: Seq<u64>, k: int, i: int)
    requires
        0 <= i <= lengths.len() == finer.len(),
        forall|j: int| 0 <= j < lengths.len() ==> #[trigger] finer[j] == k * lengths[j],
    ensures
        length_before(finer, i) == k * length_before(lengths, i),
    decreases i,
{
    if i > 0 {
        lemma_length_before_scaled(lengths, finer, k, i - 1);
        vstd::arithmetic::mul::lemma_mul_is_distributive_add(
            k,
            length_before(lengths, i - 1),
            lengths[i - 1] as int,
        );
    } else {
        vstd::arithmetic::mul::lemma_mul_basics(k);
    }
}

/// The first `k` lengths together are at most `k` times `u64::MAX`.
proof fn lemma_length_before_bound(lengths: Seq<u64>, k: int)
    requires
        0 <= k,
    ensures
        0 <= length_before(lengths, k) <= k * 0xffff_ffff_ffff_ffff,
    decreases k,
{
    if k > 0 {
        lemma_length_before_bound(lengths, k - 1);
    }
}

/// Adds up the lengths of all segments.
pub fn measure(lengths: &Vec<u64>) -> (total: u128)
    ensures
        total == total_length(lengths@),
{
    let n = lengths.len();
    let mut total: u128 = 0;
    let mut i: usize = 0;
    while i < n
        invariant
            0 <= i <= n,
            n == lengths.len(),
            total == length_before(lengths@, i as int),
        decreases n - i,
    {
        proof {
            lemma_length_before_bound(lengths@, i as int);
        }
        total = total + lengths[i] as u128;
        i += 1;
    }
    total
}

/// Finds where the length of the polyline is halved.
///
/// A polyline of length zero is halved at its start. One without a segment
/// has no such position.
pub fn half_way(lengths: &Vec<u64>) -> (out: Result<PathPosition, CentroidError>)
    ensures
        outcome(out) == path_centroid(lengths@),
        out matches Ok(pos) ==> is_half_way(lengths@, pos@),
{
    let n = lengths.len();
    if n == 0 {
        return Err(CentroidError::InvalidGeometry);
    }
    let total = measure(lengths);
    let mut covered: u128 = 0;
    let mut i: usize = 0;
    loop
        invariant
            0 <= i < n,
            n == lengths.len(),
            total == total_length(lengths@),
            covered == 2 * length_before(lengths@, i as int),
            covered <= total,
            forall|j: int| 0 <= j < i ==> 2 * #[trigger] length_before(lengths@, j + 1) < total,
        decreases n - i,
    {
        let rest = total - covered;
        let len = lengths[i] as u128;
        if rest <= 2 * len {
            let pos = PathPosition { segment: i, twice_offset: rest };
            proof {
                lemma_half_way_exists(lengths@);
                lemma_half_way_unique(lengths@, pos@, path_centroid(lengths@)->Ok_0);
            }
            return Ok(pos);
        }
        proof {
            assert(length_before(lengths@, i + 1) == length_before(lengths@, i as int) + lengths@[i as int]);
            lemma_length_before_grows(lengths@, i + 1, n as int);
        }
        covered = covered + 2 * len;
        i += 1;
    }
}

} // verus!
