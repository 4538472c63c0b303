//! What holds of every scan.

use vstd::prelude::*;
use crate::binary64::{eq, le, lt};
use crate::polygon::{classification, edge_crossed, edge_end, edge_start, inside, odd_among, within_reach};
use crate::polygon::{lemma_reach_by_ends, lemma_reach_excludes_level, Point, PolygonError};

verus! {

/// Flags that agree on `0..k` have the same parity there.
proof fn lemma_odd_among_agree(f: spec_fn(int) -> bool, g: spec_fn(int) -> bool, k: nat)
    requires
        forall|i: int| 0 <= i < k ==> #[trigger] f(i) == g(i),
    ensures
        odd_among(f, k) == odd_among(g, k),
    decreases k,
{
    if k > 0 {
        lemma_odd_among_agree(f, g, (k - 1) as nat);
    }
}

/// The parity of `k + 1` flags, taken from the front: `rest` holds the flags
/// after the first.
proof fn lemma_odd_among_front(f: spec_fn(int) -> bool, rest: spec_fn(int) -> bool, k: nat)
    requires
        forall|i: int| 0 <= i < k ==> #[trigger] rest(i) == f(i + 1),
    ensures
        odd_among(f, k + 1) == (f(0) != odd_among(rest, k)),
    decreases k,
{
    if k > 0 {
        lemma_odd_among_front(f, rest, (k - 1) as nat);
        assert(rest(k - 1) == f(k - 1 + 1));
    } else {
        assert(!odd_among(f, 0));
    }
}

/// Where no flag holds on `0..k`, the parity there is even.
proof fn lemma_odd_among_none(f: spec_fn(int) -> bool, k: nat)
    requires
        forall|i: int| 0 <= i < k ==> !#[trigger] f(i),
    ensures
        !odd_among(f, k),
    decreases k,
{
    if k > 0 {
        lemma_odd_among_none(f, (k - 1) as nat);
    }
}

/// Flags read backwards have the same parity.
proof fn lemma_odd_among_mirrored(f: spec_fn(int) -> bool, g: spec_fn(int) -> bool, k: nat)
    requires
        forall|i: int| 0 <= i < k ==> #[trigger] g(i) == f(k - 1 - i),
    ensures
        odd_among(g, k) == odd_among(f, k),
    decreases k,
{
    if k > 0 {
        let rest = |i: int| f(i + 1);
        lemma_odd_among_front(f, rest, (k - 1) as nat);
        assert forall|i: int| 0 <= i < k - 1 implies #[trigger] g(i) == rest(k - 1 - 1 - i) by {
            assert(g(i) == f(k - 1 - i));
        }
        lemma_odd_among_mirrored(rest, g, (k - 1) as nat);
        assert(g(k - 1) == f(k - 1 - (k - 1)));
    }
}

/// The edge of the reversed walk that joins the same two vertices as edge `i`
/// of a walk over `n` vertices, for `1 <= i <= n`.
pub open spec fn mirrored_edge(n: int, i: int) -> int {
    if i == n {
        n
    } else {
        n - i
    }
}

/// An edge from a vertex to itself is never within reach.
pub proof fn lemma_point_edge_out_of_reach(point: Point, vertex: Point)
    ensures
        !within_reach(point, vertex, vertex),
{
    if within_reach(point, vertex, vertex) {
        lemma_reach_excludes_level(point, vertex, vertex);
    }
}

/// A polygon of one vertex holds no point: with its two abscissas, whatever
/// they are, every point is classified as outside.
pub proof fn lemma_single_vertex_outside(point: Point, vertex: Point, abscissas: Seq<u64>)
    requires
        abscissas.len() == 2,
    ensures
        classification(point, seq![vertex], abscissas) == Ok::<bool, PolygonError>(false),
{
    let polygon = seq![vertex];
    let flag = |i: int| edge_crossed(point, polygon, abscissas, i);
    lemma_point_edge_out_of_reach(point, vertex);
    assert(edge_start(polygon, 0) == vertex && edge_end(polygon, 0) == vertex);
    assert(edge_start(polygon, 1) == vertex && edge_end(polygon, 1) == vertex);
    assert(!flag(0) && !flag(1));
    assert(odd_among(flag, 2) == (odd_among(flag, 1) != flag(1)));
    assert(odd_among(flag, 1) == (odd_among(flag, 0) != flag(0)));
    assert(!odd_among(flag, 0));
}

/// The point lies where the ray meets no edge: no vertex is below it, or no
/// vertex is at or above it, or no vertex is at or to the right of it.
pub open spec fn beyond_all_vertices(point: Point, polygon: Seq<Point>) -> bool {
    ||| forall|j: int| 0 <= j < polygon.len() ==> !lt(#[trigger] polygon[j].y, point.y)
    ||| forall|j: int| 0 <= j < polygon.len() ==> !le(point.y, #[trigger] polygon[j].y)
    ||| forall|j: int| 0 <= j < polygon.len() ==> !le(point.x, #[trigger] polygon[j].x)
}

/// A point at or under the lowest vertex, above the highest, or to the right of
/// the rightmost is outside, whatever the abscissas. The lower bound of the
/// band is exclusive: a point level with the lowest vertex is already outside.
pub proof fn lemma_beyond_all_vertices_outside(point: Point, polygon: Seq<Point>, abscissas: Seq<u64>)
    requires
        polygon.len() > 0,
        abscissas.len() == polygon.len() + 1,
        beyond_all_vertices(point, polygon),
    ensures
        classification(point, polygon, abscissas) == Ok::<bool, PolygonError>(false),
{
    let n: int = polygon.len() as int;
    let f = |i: int| edge_crossed(point, polygon, abscissas, i);
    assert forall|i: int| 0 <= i < n + 1 implies !#[trigger] f(i) by {
        let a: int = if i == 0 { 0 } else { i - 1 };
        let b: int = if i == n { 0 } else { i };
        assert(edge_start(polygon, i) == polygon[a]);
        assert(edge_end(polygon, i) == polygon[b]);
        lemma_reach_by_ends(point, polygon[a], polygon[b]);
    }
    lemma_odd_among_none(f, (n + 1) as nat);
}

/// Winding invariance: walking the vertices in the opposite order does not
/// change the answer, provided that for every edge within reach that is not
/// vertical, the point lies on the same side of the abscissa supplied for the
/// edge in either direction. (The two abscissas of an edge are rounded from
/// different operands, so they may differ in the last place.)
pub proof fn lemma_winding_invariance(
    point: Point,
    polygon: Seq<Point>,
    abscissas: Seq<u64>,
    reversed_abscissas: Seq<u64>,
)
    requires
        abscissas.len() == polygon.len() + 1,
        reversed_abscissas.len() == polygon.len() + 1,
        forall|i: int|
            1 <= i <= polygon.len() && within_reach(point, edge_start(polygon, i), edge_end(polygon, i))
                && !eq(edge_start(polygon, i).x, edge_end(polygon, i).x) ==> le(point.x, #[trigger] abscissas[i])
                == le(point.x, reversed_abscissas[mirrored_edge(polygon.len() as int, i)]),
    ensures
        classification(point, polygon.reverse(), reversed_abscissas) == classification(
            point,
            polygon,
            abscissas,
        ),
{
    let n: int = polygon.len() as int;
    let back = polygon.reverse();
    if n > 0 {
        let f = |i: int| edge_crossed(point, polygon, abscissas, i);
        let g = |i: int| edge_crossed(point, back, reversed_abscissas, i);
        assert(back.len() == n);
        assert forall|j: int| 0 <= j < n implies back[j] == polygon[n - 1 - j] by {}
        // Each edge after the first is crossed exactly when its mirror image is.
        assert forall|i: int| 1 <= i <= n implies g(mirrored_edge(n, i)) == #[trigger] f(i) by {
            let j: int = mirrored_edge(n, i);
            let p1 = edge_start(polygon, i);
            let p2 = edge_end(polygon, i);
            assert(p1 == polygon[i - 1]);
            if i == n {
                assert(p2 == polygon[0]);
                assert(edge_start(back, j) == back[n - 1]);
                assert(edge_end(back, j) == back[0]);
            } else {
                assert(p2 == polygon[i]);
                assert(edge_start(back, j) == back[j - 1]);
                assert(edge_end(back, j) == back[j]);
            }
            assert(edge_start(back, j) == p2);
            assert(edge_end(back, j) == p1);
            lemma_reach_by_ends(point, p1, p2);
        }
        // The first edge of either walk joins a vertex to itself.
        lemma_point_edge_out_of_reach(point, polygon[0]);
        lemma_point_edge_out_of_reach(point, back[0]);
        assert(!f(0) && !g(0));
        // Edge n is its own mirror image; edges 1 .. n - 1 come in opposite order.
        let f_rest = |i: int| f(i + 1);
        let g_rest = |i: int| g(i + 1);
        lemma_odd_among_front(f, f_rest, (n - 1) as nat);
        lemma_odd_among_front(g, g_rest, (n - 1) as nat);
        assert forall|i: int| 0 <= i < n - 1 implies #[trigger] g_rest(i) == f_rest(n - 1 - 1 - i) by {
            assert(g(mirrored_edge(n, n - 1 - i)) == f(n - 1 - i));
        }
        lemma_odd_among_mirrored(f_rest, g_rest, (n - 1) as nat);
        assert(g(mirrored_edge(n, n)) == f(n));
        assert(odd_among(f, (n + 1) as nat) == (odd_among(f, n as nat) != f(n)));
        assert(odd_among(g, (n + 1) as nat) == (odd_among(g, n as nat) != g(n)));
        assert(inside(point, back, reversed_abscissas) == inside(point, polygon, abscissas));
    }
}

/// How `point` stands to `vertex` in the three comparisons that reach is made
/// of.
pub open spec fn standing(point: Point, vertex: Point) -> (bool, bool, bool) {
    (lt(vertex.y, point.y), le(point.y, vertex.y), le(point.x, vertex.x))
}

/// The answer is a matter of order alone: two scans answer alike when each
/// point stands alike to the vertices of its polygon, the same edges are
/// vertical, and on every edge within reach that is not vertical each point
/// lies on the same side of its abscissa. A translation of polygon and point
/// that keeps all of these comparisons therefore keeps the answer.
pub proof fn lemma_order_decides(
    point: Point,
    polygon: Seq<Point>,
    abscissas: Seq<u64>,
    other_point: Point,
    other_polygon: Seq<Point>,
    other_abscissas: Seq<u64>,
)
    requires
        polygon.len() == other_polygon.len(),
        abscissas.len() == other_abscissas.len(),
        forall|j: int|
            0 <= j < polygon.len() ==> standing(point, #[trigger] polygon[j]) == standing(
                other_point,
                other_polygon[j],
            ),
        forall|i: int|
            1 <= i <= polygon.len() ==> eq(edge_start(polygon, i).x, edge_end(polygon, i).x) == eq(
                edge_start(other_polygon, i).x,
                #[trigger] edge_end(other_polygon, i).x,
            ),
        forall|i: int|
            1 <= i <= polygon.len() && within_reach(point, edge_start(polygon, i), edge_end(polygon, i))
                && !eq(edge_start(polygon, i).x, edge_end(polygon, i).x) ==> le(point.x, #[trigger] abscissas[i])
                == le(other_point.x, other_abscissas[i]),
    ensures
        classification(other_point, other_polygon, other_abscissas) == classification(
            point,
            polygon,
            abscissas,
        ),
{
    let n: int = polygon.len() as int;
    if n > 0 && abscissas.len() == n + 1 {
        let f = |i: int| edge_crossed(point, polygon, abscissas, i);
        let g = |i: int| edge_crossed(other_point, other_polygon, other_abscissas, i);
        assert forall|i: int| 0 <= i < n + 1 implies #[trigger] f(i) == g(i) by {
            let p1 = edge_start(polygon, i);
            let p2 = edge_end(polygon, i);
            let q1 = edge_start(other_polygon, i);
            let q2 = edge_end(other_polygon, i);
            if i == 0 {
                lemma_point_edge_out_of_reach(point, p1);
                lemma_point_edge_out_of_reach(other_point, q1);
            } else {
                let a: int = i - 1;
                let b: int = if i == n { 0 } else { i };
                assert(standing(point, polygon[a]) == standing(other_point, other_polygon[a]));
                assert(standing(point, polygon[b]) == standing(other_point, other_polygon[b]));
                lemma_reach_by_ends(point, p1, p2);
                lemma_reach_by_ends(other_point, q1, q2);
                let _ = edge_end(other_polygon, i).x;
                }
        }
        lemma_odd_among_agree(f, g, (n + 1) as nat);
    }
}

} // verus!
