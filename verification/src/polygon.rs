//! The crossing-number scan of a closed polygon.
//!
//! A polygon of `n` vertices is walked as `n + 1` edges: edge `i` ends at vertex
//! `i mod n` and starts where edge `i - 1` ended, edge 0 starting at vertex 0.
//! The last edge therefore closes the outline. For each edge the caller supplies
//! the abscissa at which the edge meets the horizontal line through the query
//! point, `(point.y - p1.y) * (p2.x - p1.x) / (p2.y - p1.y) + p1.x` as rounded in
//! binary64; the scan reads it only for edges that the line can meet.

use vstd::prelude::*;
use vstd::arithmetic::div_mod::{lemma_mod_self_0, lemma_small_mod};
use crate::binary64::{eq, le, lt, max_of, min_of, pick_max, pick_min, test_eq, test_le, test_lt, POSITIVE_ZERO};
use crate::binary64::{lemma_max_above, lemma_min_below};

verus! {

/// A point of the plane: two binary64 coordinates, as bit patterns.
#[derive(Clone, Copy, Debug, PartialEq, Eq)]
pub struct Point {
    pub x: u64,
    pub y: u64,
}

/// Why a scan could not be made.
#[derive(Clone, Copy, Debug, PartialEq, Eq)]
pub enum PolygonError {
    /// The polygon has no vertex.
    EmptyPolygon,
    /// There is not one abscissa for each of the `n + 1` edges.
    AbscissaCount,
}

/// The edge `p1`-`p2` can be met by the ray that leaves `point` towards greater
/// `x`: `point.y` lies in the band above the lower end and up to the upper end,
/// and `point.x` is not beyond the edge's greater `x`.
pub open spec fn within_reach(point: Point, p1: Point, p2: Point) -> bool {
    &&& lt(min_of(p1.y, p2.y), point.y)
    &&& le(point.y, max_of(p1.y, p2.y))
    &&& le(point.x, max_of(p1.x, p2.x))
}

/// The ray from `point` crosses the edge `p1`-`p2`, given the abscissa at which
/// the edge meets the ray's line: the edge is within reach and is either
/// vertical or met at or beyond `point.x`.
pub open spec fn crosses(point: Point, p1: Point, p2: Point, abscissa: u64) -> bool {
    within_reach(point, p1, p2) && (eq(p1.x, p2.x) || le(point.x, abscissa))
}

/// Where edge `i` of the walk starts, for `0 <= i <= n`: at the vertex before
/// vertex `i`, and edge 0 at vertex 0.
pub open spec fn edge_start(polygon: Seq<Point>, i: int) -> Point {
    if i == 0 {
        polygon[0]
    } else {
        polygon[i - 1]
    }
}

/// Where edge `i` of the walk ends, for `0 <= i <= n`: at vertex `i`, and edge
/// `n` back at vertex 0.
pub open spec fn edge_end(polygon: Seq<Point>, i: int) -> Point {
    if i == polygon.len() {
        polygon[0]
    } else {
        polygon[i]
    }
}

/// Whether the ray crosses edge `i` of the walk.
pub open spec fn edge_crossed(point: Point, polygon: Seq<Point>, abscissas: Seq<u64>, i: int) -> bool {
    crosses(point, edge_start(polygon, i), edge_end(polygon, i), abscissas[i])
}

/// Whether an odd number of `flag(0)`, ..., `flag(k - 1)` hold.
pub open spec fn odd_among(flag: spec_fn(int) -> bool, k: nat) -> bool
    decreases k,
{
    if k == 0 {
        false
    } else {
        odd_among(flag, (k - 1) as nat) != flag(k - 1)
    }
}

/// Whether the ray crosses an odd number of the polygon's `n + 1` edges.
pub open spec fn inside(point: Point, polygon: Seq<Point>, abscissas: Seq<u64>) -> bool {
    odd_among(|i: int| edge_crossed(point, polygon, abscissas, i), polygon.len() + 1)
}

/// What a scan answers: an error for a polygon without vertices or a wrong
/// number of abscissas, else whether the point is inside.
pub open spec fn classification(point: Point, polygon: Seq<Point>, abscissas: Seq<u64>) -> Result<bool, PolygonError> {
    if polygon.len() == 0 {
        Err(PolygonError::EmptyPolygon)
    } else if abscissas.len() != polygon.len() + 1 {
        Err(PolygonError::AbscissaCount)
    } else {
        Ok(inside(point, polygon, abscissas))
    }
}

/// An edge within reach is not level: its two ends differ in `y`, and neither
/// `y` is a NaN.
pub proof fn lemma_reach_excludes_level(point: Point, p1: Point, p2: Point)
    requires
        within_reach(point, p1, p2),
    ensures
        !eq(p1.y, p2.y),
        lt(p1.y, p2.y) || lt(p2.y, p1.y),
{
}

/// Reach does not depend on the direction of the edge: it is a matter of how
/// `point` compares with each end.
pub proof fn lemma_reach_by_ends(point: Point, p1: Point, p2: Point)
    ensures
        within_reach(point, p1, p2) == {
            &&& (lt(p1.y, point.y) || lt(p2.y, point.y))
            &&& (le(point.y, p1.y) || le(point.y, p2.y))
            &&& (le(point.x, p1.x) || le(point.x, p2.x))
        },
        within_reach(point, p1, p2) == within_reach(point, p2, p1),
{
    lemma_min_below(p1.y, p2.y, point.y);
    lemma_max_above(p1.y, p2.y, point.y);
    lemma_max_above(p1.x, p2.x, point.x);
    lemma_min_below(p2.y, p1.y, point.y);
    lemma_max_above(p2.y, p1.y, point.y);
    lemma_max_above(p2.x, p1.x, point.x);
}

/// Decides whether the edge `p1`-`p2` is within reach of the ray from `point`.
pub fn edge_within_reach(point: Point, p1: Point, p2: Point) -> (r: bool)
    ensures
        r == within_reach(point, p1, p2),
{
    test_lt(pick_min(p1.y, p2.y), point.y)
        && test_le(point.y, pick_max(p1.y, p2.y))
        && test_le(point.x, pick_max(p1.x, p2.x))
}

/// Decides whether the ray from `point` crosses the edge `p1`-`p2`, met at
/// `abscissa`.
pub fn edge_crosses(point: Point, p1: Point, p2: Point, abscissa: u64) -> (r: bool)
    ensures
        r == crosses(point, p1, p2, abscissa),
{
    edge_within_reach(point, p1, p2) && (test_eq(p1.x, p2.x) || test_le(point.x, abscissa))
}

/// Classifies `point` against the closed outline `polygon`.
///
/// `abscissas[i]` is the abscissa at which edge `i` of the walk meets the
/// horizontal line through `point`. The scan keeps the abscissa of the last
/// edge that was within reach and not level, and reads it for every edge within
/// reach; as no edge within reach is level, that is always the edge's own.
pub fn point_in_polygon(point: Point, polygon: &Vec<Point>, abscissas: &Vec<u64>) -> (result: Result<bool, PolygonError>)
    ensures
        result == classification(point, polygon@, abscissas@),
{
    let n: usize = polygon.len();
    if n == 0 {
        return Err(PolygonError::EmptyPolygon);
    }
    if abscissas.len() == 0 || abscissas.len() - 1 != n {
        return Err(PolygonError::AbscissaCount);
    }
    let ghost flag = |k: int| edge_crossed(point, polygon@, abscissas@, k);
    let mut p1: Point = polygon[0];
    let mut met_at: u64 = POSITIVE_ZERO;
    let mut odd: bool = false;
    let mut i: usize = 0;
    while i <= n
        invariant
            n == polygon@.len(),
            0 < n < usize::MAX,
            abscissas@.len() == n + 1,
            i <= n + 1,
            i <= n ==> p1 == edge_start(polygon@, i as int),
            flag == (|k: int| edge_crossed(point, polygon@, abscissas@, k)),
            odd == odd_among(flag, i as nat),
        decreases n + 1 - i,
    {
        proof {
            if i < n {
                lemma_small_mod(i as nat, n as nat);
            } else {
                lemma_mod_self_0(n as int);
            }
        }
        let p2: Point = polygon[i % n];
        if edge_within_reach(point, p1, p2) {
            if !test_eq(p1.y, p2.y) {
                met_at = abscissas[i];
            }
            proof {
                lemma_reach_excludes_level(point, p1, p2);
            }
            if test_eq(p1.x, p2.x) || test_le(point.x, met_at) {
                odd = !odd;
            }
        }
        assert(flag(i as int) == crosses(point, p1, p2, abscissas@[i as int]));
        p1 = p2;
        i = i + 1;
    }
    Ok(odd)
}

} // verus!
