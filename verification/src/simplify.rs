//! Thinning of over-dense strokes.
//!
//! Samples that crowd closer together than the ribbon is wide there give
//! overlapping outline segments. Thinning looks at the closest adjacent pair
//! of points, and drops the later of the two while the pair is closer than
//! the sum of its half-widths and more than two points are left.

use vstd::prelude::*;
use crate::geometry::MAX_THICKNESS;
use crate::geometry::dist2;
use crate::geometry::dist2_spec;
use crate::outline::StrokeData;
use crate::outline::StrokePoint;
use crate::outline::thickness_bounded;

verus! {

/// The squared length of segment `i`, from point `i` to point `i + 1`.
pub open spec fn gap2(s: Seq<StrokePoint>, i: int) -> int {
    dist2_spec(s[i].pos, s[i + 1].pos)
}

/// Segment `i` is the shortest one; of several shortest, the first.
pub open spec fn is_densest(s: Seq<StrokePoint>, i: int) -> bool {
    &&& 0 <= i < s.len() - 1
    &&& forall|j: int| 0 <= j < s.len() - 1 ==> gap2(s, i) <= #[trigger] gap2(s, j)
    &&& forall|j: int| 0 <= j < i ==> gap2(s, i) < #[trigger] gap2(s, j)
}

/// The index of the densest segment of a stroke with at least two points.
pub open spec fn densest(s: Seq<StrokePoint>) -> int {
    choose|i: int| is_densest(s, i)
}

/// Two points are far enough apart: their distance is at least the sum of
/// their half-widths.
pub open spec fn is_sparse_pair(a: StrokePoint, b: StrokePoint) -> bool {
    dist2_spec(a.pos, b.pos) >= (a.thickness + b.thickness) * (a.thickness + b.thickness)
}

/// The thinned stroke.
pub open spec fn simplified(s: Seq<StrokePoint>) -> Seq<StrokePoint>
    decreases s.len(),
{
    let i = densest(s);
    if s.len() > 2 && 0 <= i < s.len() - 1 && !is_sparse_pair(s[i], s[i + 1]) {
        simplified(s.remove(i + 1))
    } else {
        s
    }
}

/// A stroke has at most one densest segment.
pub proof fn lemma_densest_unique(s: Seq<StrokePoint>, i: int, j: int)
    requires
        is_densest(s, i),
        is_densest(s, j),
    ensures
        i == j,
{
    if i < j {
        assert(gap2(s, j) < gap2(s, i));
        assert(gap2(s, i) <= gap2(s, j));
    } else if j < i {
        assert(gap2(s, i) < gap2(s, j));
        assert(gap2(s, j) <= gap2(s, i));
    }
}

/// Thinning ends, keeps the first point, never adds a point, and leaves at
/// least two points of a stroke that had two.
pub proof fn lemma_simplified_len(s: Seq<StrokePoint>)
    ensures
        simplified(s).len() <= s.len(),
        s.len() >= 2 ==> simplified(s).len() >= 2,
        s.len() <= 2 ==> simplified(s) == s,
        s.len() >= 1 ==> simplified(s)[0] == s[0],
        thickness_bounded(s) ==> thickness_bounded(simplified(s)),
    decreases s.len(),
{
    let i = densest(s);
    if s.len() > 2 && 0 <= i < s.len() - 1 && !is_sparse_pair(s[i], s[i + 1]) {
        let t = s.remove(i + 1);
        lemma_simplified_len(t);
        assert(t[0] == s[0]);
        assert(thickness_bounded(s) ==> thickness_bounded(t)) by {
            if thickness_bounded(s) {
                assert forall|k: int| 0 <= k < t.len() implies (#[trigger] t[k]).thickness
                    <= MAX_THICKNESS by {
                    if k < i + 1 {
                        assert(t[k] == s[k]);
                    } else {
                        assert(t[k] == s[k + 1]);
                    }
                }
            }
        }
    }
}

/// Thinning invents nothing: every point it leaves is a point of the stroke.
pub proof fn lemma_simplified_keeps_points(s: Seq<StrokePoint>, k: int)
    requires
        0 <= k < simplified(s).len(),
    ensures
        s.contains(simplified(s)[k]),
    decreases s.len(),
{
    let i = densest(s);
    if s.len() > 2 && 0 <= i < s.len() - 1 && !is_sparse_pair(s[i], s[i + 1]) {
        let t = s.remove(i + 1);
        lemma_simplified_keeps_points(t, k);
        let j = choose|j: int| 0 <= j < t.len() && t[j] == simplified(s)[k];
        if j < i + 1 {
            assert(s[j] == t[j]);
        } else {
            assert(s[j + 1] == t[j]);
        }
    } else {
        assert(s[k] == simplified(s)[k]);
    }
}

/// Thinning a thinned stroke changes nothing.
pub proof fn lemma_simplified_settled(s: Seq<StrokePoint>)
    ensures
        simplified(simplified(s)) == simplified(s),
    decreases s.len(),
{
    let i = densest(s);
    if s.len() > 2 && 0 <= i < s.len() - 1 && !is_sparse_pair(s[i], s[i + 1]) {
        lemma_simplified_settled(s.remove(i + 1));
    }
}

/// Whether two points are far enough apart.
pub fn sparse_pair(a: StrokePoint, b: StrokePoint) -> (r: bool)
    requires
        a.thickness <= MAX_THICKNESS,
        b.thickness <= MAX_THICKNESS,
    ensures
        r == is_sparse_pair(a, b),
{
    let reach: u128 = a.thickness as u128 + b.thickness as u128;
    assert(reach * reach <= 281474976710656 * 281474976710656) by (nonlinear_arith)
        requires
            0 <= reach <= 281474976710656,
    ;
    dist2(a.pos, b.pos) >= reach * reach
}

/// Finds the densest segment.
pub fn densest_segment(points: &Vec<StrokePoint>) -> (i: usize)
    requires
        points@.len() >= 2,
    ensures
        is_densest(points@, i as int),
        i == densest(points@),
{
    let n: usize = points.len();
    let mut best: usize = 0;
    let mut best_gap: u128 = dist2(points[0].pos, points[1].pos);
    let mut j: usize = 1;
    while j < n - 1
        invariant
            n == points@.len(),
            n >= 2,
            1 <= j <= n - 1,
            0 <= best < j,
            best_gap == gap2(points@, best as int),
            forall|k: int| 0 <= k < j ==> gap2(points@, best as int) <= #[trigger] gap2(points@, k),
            forall|k: int| 0 <= k < best ==> gap2(points@, best as int) < #[trigger] gap2(points@, k),
        decreases n - j,
    {
        let gap: u128 = dist2(points[j].pos, points[j + 1].pos);
        if gap < best_gap {
            best = j;
            best_gap = gap;
        }
        j += 1;
    }
    proof {
        lemma_densest_unique(points@, best as int, densest(points@));
    }
    best
}

/// Thins a stroke.
pub fn clean_stroke(stroke: StrokeData) -> (cleaned: StrokeData)
    ensures
        cleaned@ == simplified(stroke@),
        cleaned@.len() <= stroke@.len(),
        stroke@.len() >= 2 ==> cleaned@.len() >= 2,
{
    let mut points = stroke.into_points();
    let mut settled: bool = false;
    proof {
        lemma_simplified_len(stroke@);
    }
    while !settled && points.len() > 2
        invariant
            thickness_bounded(points@),
            simplified(points@) == simplified(stroke@),
            settled ==> simplified(points@) == points@,
        decreases points@.len() + if settled { 0int } else { 1int },
    {
        let i: usize = densest_segment(&points);
        if sparse_pair(points[i], points[i + 1]) {
            settled = true;
        } else {
            proof {
                lemma_simplified_len(points@);
                let t = points@.remove(i + 1);
                assert forall|k: int| 0 <= k < t.len() implies (#[trigger] t[k]).thickness
                    <= MAX_THICKNESS by {
                    if k < i + 1 {
                        assert(t[k] == points@[k]);
                    } else {
                        assert(t[k] == points@[k + 1]);
                    }
                }
            }
            points.remove(i + 1);
        }
    }
    StrokeData::from_bounded(points)
}

} // verus!
