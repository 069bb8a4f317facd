use vstd::prelude::*;

use crate::geom::{in_bound, Point, COORD_BOUND};

verus! {

/// Marks the absence of a half-edge (a triangulation edge on the convex hull
/// has no twin) and the absence of an incoming edge for an unused point.
pub const EMPTY: usize = usize::MAX;

pub open spec fn usizes(s: Seq<usize>) -> Seq<int> {
    s.map(|i: int, v: usize| v as int)
}

pub open spec fn points_view(points: Seq<Point>) -> Seq<(int, int)> {
    points.map(|i: int, p: Point| (p.x as int, p.y as int))
}

/// The triangulation of a point sequence: the flat triangle/point index list,
/// the twin of each half-edge, and the convex hull point indices. The value
/// is fixed by the input points alone.
pub uninterp spec fn triangulation_of(points: Seq<(int, int)>) -> (Seq<int>, Seq<int>, Seq<int>);

/// The half-edge that follows `e` inside its triangle.
pub open spec fn spec_next_halfedge(e: int) -> int {
    if e % 3 == 2 {
        e - 2
    } else {
        e + 1
    }
}

pub fn next_halfedge(e: usize) -> (r: usize)
    requires
        e < EMPTY,
    ensures
        r == spec_next_halfedge(e as int),
{
    if e % 3 == 2 {
        e - 2
    } else {
        e + 1
    }
}

/// The three half-edges composing triangle `t`.
pub fn edge_tuple_of_triangle(t: usize) -> (r: (usize, usize, usize))
    requires
        t <= (usize::MAX - 2) / 3,
    ensures
        r.0 == t * 3 && r.1 == t * 3 + 1 && r.2 == t * 3 + 2,
{
    (t * 3, t * 3 + 1, t * 3 + 2)
}

/// The triangle that a half-edge belongs to.
pub fn triangle_of_edge(e: usize) -> (t: usize)
    ensures
        t == e as int / 3,
{
    e / 3
}

/// Structural soundness of a half-edge table: twins pair up, and a half-edge
/// and its twin run between the same two points in opposite directions.
pub open spec fn halfedges_wf(tr: Seq<usize>, he: Seq<usize>) -> bool {
    &&& tr.len() % 3 == 0
    &&& he.len() == tr.len()
    &&& tr.len() < EMPTY
    &&& forall|e: int|
        0 <= e < he.len() ==> (#[trigger] he[e]) == EMPTY || (he[e] < he.len() && he[e] != e
            && he[he[e] as int] == e && tr[he[e] as int] == tr[spec_next_halfedge(e)]
            && tr[spec_next_halfedge(he[e] as int)] == tr[e])
}

/// Every triangle corner names a valid input point.
pub open spec fn tri_points_wf(tr: Seq<usize>, np: int) -> bool {
    forall|e: int| 0 <= e < tr.len() ==> (#[trigger] tr[e]) < np
}

pub open spec fn hull_wf(hull: Seq<usize>, np: int) -> bool {
    forall|h: int| 0 <= h < hull.len() ==> (#[trigger] hull[h]) < np
}

/// Relies on delaunator::triangulate: returns the Delaunay triangulation as
/// flat index arrays. `triangles` lists point indices three per triangle;
/// `halfedges[e]` is the twin (opposite) half-edge of `e` in the adjacent
/// triangle, or `usize::MAX` when `e` lies on the convex hull; `hull` lists
/// the hull point indices, counter-clockwise. Half-edge `e` runs from point
/// `triangles[e]` to point `triangles[next_halfedge(e)]`, and its twin runs
/// between the same two points in the opposite direction. When all points are
/// collinear the triangle list is empty. The result is a pure function of the
/// coordinates.
#[verifier::external_body]
fn triangulate_raw(points: &Vec<Point>) -> (r: (Vec<usize>, Vec<usize>, Vec<usize>))
    requires
        forall|i: int| 0 <= i < points@.len() ==> in_bound(#[trigger] points@[i]),
    ensures
        (usizes(r.0@), usizes(r.1@), usizes(r.2@)) == triangulation_of(points_view(points@)),
        halfedges_wf(r.0@, r.1@),
        tri_points_wf(r.0@, points@.len() as int),
        hull_wf(r.2@, points@.len() as int),
        r.0@.len() <= 6 * points@.len(),
{
    let input: Vec<delaunator::Point> = points
        .iter()
        .map(|p| delaunator::Point { x: (p.x as i32).into(), y: (p.y as i32).into() })
        .collect();
    let t = delaunator::triangulate(&input);
    (t.triangles, t.halfedges, t.hull)
}

/// The centroid of a triangle. The shared shift keeps the division operand
/// non-negative so that flooring matches the machine division.
pub open spec fn spec_centroid(a: Point, b: Point, c: Point) -> Point {
    Point {
        x: ((a.x + b.x + c.x + 3 * COORD_BOUND) / 3 - COORD_BOUND) as i64,
        y: ((a.y + b.y + c.y + 3 * COORD_BOUND) / 3 - COORD_BOUND) as i64,
    }
}

/// Find the centroid of a triangle.
pub fn centroid(a: Point, b: Point, c: Point) -> (r: Point)
    requires
        in_bound(a),
        in_bound(b),
        in_bound(c),
    ensures
        r == spec_centroid(a, b, c),
        in_bound(r),
{
    let x = (a.x + b.x + c.x + 3 * COORD_BOUND) / 3 - COORD_BOUND;
    let y = (a.y + b.y + c.y + 3 * COORD_BOUND) / 3 - COORD_BOUND;
    Point { x, y }
}

/// The incoming-edge index after scanning half-edges `0..n`: for each point,
/// some half-edge arriving at it, preferring a "leftmost" edge (one whose
/// twin is absent) so that a hull point's cell walk covers its whole fan.
pub open spec fn inc_upto(tr: Seq<usize>, he: Seq<usize>, np: nat, n: nat) -> Seq<usize>
    decreases n,
{
    if n == 0 {
        Seq::new(np, |i: int| EMPTY)
    } else {
        let prev = inc_upto(tr, he, np, (n - 1) as nat);
        let e = (n - 1) as int;
        let p = tr[spec_next_halfedge(e)] as int;
        if prev[p] == EMPTY || he[e] == EMPTY {
            prev.update(p, (n - 1) as usize)
        } else {
            prev
        }
    }
}

/// The full incoming-edge index of a triangulation.
pub open spec fn spec_incoming(tr: Seq<usize>, he: Seq<usize>, np: nat) -> Seq<usize> {
    inc_upto(tr, he, np, tr.len())
}

proof fn lemma_inc_upto_wf(tr: Seq<usize>, he: Seq<usize>, np: nat, n: nat)
    requires
        halfedges_wf(tr, he),
        tri_points_wf(tr, np as int),
        n <= tr.len(),
    ensures
        inc_upto(tr, he, np, n).len() == np,
        forall|p: int|
            0 <= p < np ==> (#[trigger] inc_upto(tr, he, np, n)[p]) == EMPTY || (inc_upto(
                tr,
                he,
                np,
                n,
            )[p] < n && tr[spec_next_halfedge(inc_upto(tr, he, np, n)[p] as int)] == p),
    decreases n,
{
    if n > 0 {
        lemma_inc_upto_wf(tr, he, np, (n - 1) as nat);
        let e = (n - 1) as int;
        assert(0 <= spec_next_halfedge(e) < tr.len());
    }
}

/// Build an index from point index to some incoming edge index for edge
/// traversal.
fn build_incoming_edge_index(tr: &Vec<usize>, he: &Vec<usize>, np: usize) -> (r: Vec<usize>)
    requires
        halfedges_wf(tr@, he@),
        tri_points_wf(tr@, np as int),
    ensures
        r@ == spec_incoming(tr@, he@, np as nat),
        r@.len() == np,
{
    let mut r: Vec<usize> = Vec::new();
    let mut i: usize = 0;
    while i < np
        invariant
            i <= np,
            r@ =~= Seq::new(i as nat, |j: int| EMPTY),
        decreases np - i,
    {
        r.push(EMPTY);
        i = i + 1;
    }
    assert(r@ =~= inc_upto(tr@, he@, np as nat, 0));

    let mut e: usize = 0;
    while e < tr.len()
        invariant
            e <= tr@.len(),
            halfedges_wf(tr@, he@),
            tri_points_wf(tr@, np as int),
            r@.len() == np,
            r@ == inc_upto(tr@, he@, np as nat, e as nat),
        decreases tr@.len() - e,
    {
        proof {
            lemma_inc_upto_wf(tr@, he@, np as nat, e as nat);
            assert(0 <= spec_next_halfedge(e as int) < tr@.len());
        }
        let point_index = tr[next_halfedge(e)];
        let is_leftmost = he[e] == EMPTY;
        if r[point_index] == EMPTY || is_leftmost {
            r.set(point_index, e);
        }
        e = e + 1;
    }
    r
}

/// The ring of triangles visited when rotating around a point, starting from
/// incoming half-edge `curr` and stopping at the hull or on return to `last`.
pub open spec fn spec_walk(he: Seq<usize>, curr: int, last: int, fuel: nat) -> Seq<usize>
    decreases fuel,
{
    if fuel == 0 || curr == EMPTY {
        Seq::empty()
    } else {
        let v = (curr / 3) as usize;
        let nxt = he[spec_next_halfedge(curr)] as int;
        if nxt != last {
            seq![v] + spec_walk(he, nxt, last, (fuel - 1) as nat)
        } else {
            seq![v]
        }
    }
}

proof fn lemma_walk_range(tr: Seq<usize>, he: Seq<usize>, curr: int, last: int, fuel: nat)
    requires
        halfedges_wf(tr, he),
        curr == EMPTY || 0 <= curr < he.len(),
    ensures
        forall|k: int|
            0 <= k < spec_walk(he, curr, last, fuel).len() ==> (#[trigger] spec_walk(
                he,
                curr,
                last,
                fuel,
            )[k]) < he.len() / 3,
    decreases fuel,
{
    if fuel > 0 && curr != EMPTY {
        assert(curr / 3 < he.len() / 3) by {
            vstd::arithmetic::div_mod::lemma_fundamental_div_mod(he.len() as int, 3);
            vstd::arithmetic::div_mod::lemma_multiply_divide_lt(curr, 3, he.len() as int / 3);
        }
        assert(0 <= spec_next_halfedge(curr) < he.len());
        let nxt = he[spec_next_halfedge(curr)] as int;
        assert(nxt == EMPTY || 0 <= nxt < he.len());
        let w = spec_walk(he, curr, last, fuel);
        let v = (curr / 3) as usize;
        if nxt != last {
            lemma_walk_range(tr, he, nxt, last, (fuel - 1) as nat);
            let tail = spec_walk(he, nxt, last, (fuel - 1) as nat);
            assert(w == seq![v] + tail);
            assert forall|k: int| 0 <= k < w.len() implies (#[trigger] w[k]) < he.len() / 3 by {
                if k == 0 {
                    assert(w[k] == v);
                } else {
                    assert(w[k] == tail[k - 1]);
                }
            }
        } else {
            assert(w == seq![v]);
            assert(w[0] == v);
        }
    }
}

/// The raw half-edges the rotation around a point visits, in order.
pub open spec fn spec_walk_edges(he: Seq<usize>, curr: int, last: int, fuel: nat) -> Seq<usize>
    decreases fuel,
{
    if fuel == 0 || curr == EMPTY {
        Seq::empty()
    } else {
        let nxt = he[spec_next_halfedge(curr)] as int;
        if nxt != last {
            seq![curr as usize] + spec_walk_edges(he, nxt, last, (fuel - 1) as nat)
        } else {
            seq![curr as usize]
        }
    }
}

/// The cell ring is exactly the triangle of each visited half-edge.
pub proof fn lemma_walk_is_triangles(he: Seq<usize>, curr: int, last: int, fuel: nat)
    requires
        he.len() % 3 == 0,
        he.len() < EMPTY,
        curr == EMPTY || 0 <= curr < he.len(),
        forall|e: int|
            0 <= e < he.len() ==> (#[trigger] he[e]) == EMPTY || he[e] < he.len(),
    ensures
        spec_walk(he, curr, last, fuel).len() == spec_walk_edges(he, curr, last, fuel).len(),
        forall|k: int|
            0 <= k < spec_walk(he, curr, last, fuel).len() ==> (#[trigger] spec_walk(
                he,
                curr,
                last,
                fuel,
            )[k]) == ((spec_walk_edges(he, curr, last, fuel)[k] as int) / 3) as usize,
    decreases fuel,
{
    if fuel > 0 && curr != EMPTY {
        assert(0 <= spec_next_halfedge(curr) < he.len());
        let nxt = he[spec_next_halfedge(curr)] as int;
        if nxt != last {
            lemma_walk_is_triangles(he, nxt, last, (fuel - 1) as nat);
            let w = spec_walk(he, curr, last, fuel);
            let we = spec_walk_edges(he, curr, last, fuel);
            let tl = spec_walk(he, nxt, last, (fuel - 1) as nat);
            let tle = spec_walk_edges(he, nxt, last, (fuel - 1) as nat);
            assert forall|k: int| 0 <= k < w.len() implies (#[trigger] w[k]) == ((we[k] as int)
                / 3) as usize by {
                if k > 0 {
                    assert(w[k] == tl[k - 1]);
                    assert(we[k] == tle[k - 1]);
                }
            }
        }
    }
}

/// Every half-edge the rotation visits comes into the same point: starting
/// from an incoming half-edge of `p`, the twin of each successive outgoing
/// edge arrives at `p` again.
pub proof fn lemma_walk_edges_incoming(
    tr: Seq<usize>,
    he: Seq<usize>,
    curr: int,
    last: int,
    fuel: nat,
    p: int,
)
    requires
        halfedges_wf(tr, he),
        0 <= curr < he.len(),
        tr[spec_next_halfedge(curr)] == p,
    ensures
        forall|k: int|
            0 <= k < spec_walk_edges(he, curr, last, fuel).len() ==> {
                let e = (#[trigger] spec_walk_edges(he, curr, last, fuel)[k]) as int;
                0 <= e < he.len() && tr[spec_next_halfedge(e)] == p
            },
    decreases fuel,
{
    if fuel > 0 {
        assert(0 <= spec_next_halfedge(curr) < he.len());
        let nxt = he[spec_next_halfedge(curr)] as int;
        if nxt != last && nxt != EMPTY {
            assert(tr[spec_next_halfedge(nxt)] == tr[spec_next_halfedge(curr)]);
            lemma_walk_edges_incoming(tr, he, nxt, last, (fuel - 1) as nat, p);
            let we = spec_walk_edges(he, curr, last, fuel);
            let tle = spec_walk_edges(he, nxt, last, (fuel - 1) as nat);
            assert forall|k: int| 0 <= k < we.len() implies {
                let e = (#[trigger] we[k]) as int;
                0 <= e < he.len() && tr[spec_next_halfedge(e)] == p
            } by {
                if k > 0 {
                    assert(we[k] == tle[k - 1]);
                }
            }
        }
    }
}

/// The ring of vertex indices forming the Voronoi cell of point `p`.
pub open spec fn spec_cell_ring(tr: Seq<usize>, he: Seq<usize>, np: nat, p: int) -> Seq<usize> {
    let start = spec_incoming(tr, he, np)[p] as int;
    if start == EMPTY {
        Seq::empty()
    } else {
        spec_walk(he, start, start, he.len() + 1)
    }
}

/// Point `p` is a corner of triangle `t`.
pub open spec fn triangle_touches(tr: Seq<usize>, t: int, p: int) -> bool {
    exists|o: int| 0 <= o < 3 && #[trigger] tr[3 * t + o] == p
}

/// Every vertex on the cell ring of point `p` is the centroid of a triangle
/// having `p` as one of its corners: the ring fans around its point.
pub proof fn lemma_cell_ring_touches_point(tr: Seq<usize>, he: Seq<usize>, np: nat, p: int)
    requires
        halfedges_wf(tr, he),
        tri_points_wf(tr, np as int),
        0 <= p < np,
    ensures
        forall|k: int|
            0 <= k < spec_cell_ring(tr, he, np, p).len() ==> triangle_touches(
                tr,
                (#[trigger] spec_cell_ring(tr, he, np, p)[k]) as int,
                p,
            ),
{
    lemma_inc_upto_wf(tr, he, np, tr.len());
    let start = spec_incoming(tr, he, np)[p] as int;
    if start != EMPTY {
        assert(0 <= start < he.len());
        assert(tr[spec_next_halfedge(start)] == p);
        assert(forall|e: int|
            0 <= e < he.len() ==> (#[trigger] he[e]) == EMPTY || he[e] < he.len());
        let fuel = (he.len() + 1) as nat;
        lemma_walk_is_triangles(he, start, start, fuel);
        lemma_walk_edges_incoming(tr, he, start, start, fuel, p);
        let ring = spec_cell_ring(tr, he, np, p);
        let edges = spec_walk_edges(he, start, start, fuel);
        assert forall|k: int| 0 <= k < ring.len() implies triangle_touches(
            tr,
            (#[trigger] ring[k]) as int,
            p,
        ) by {
            let e = edges[k] as int;
            let ne = spec_next_halfedge(e);
            assert(tr[ne] == p);
            assert(ne / 3 == e / 3) by (nonlinear_arith)
                requires
                    ne == spec_next_halfedge(e),
                    e >= 0,
            ;
            vstd::arithmetic::div_mod::lemma_fundamental_div_mod(ne, 3);
            vstd::arithmetic::div_mod::lemma_mod_division_less_than_divisor(ne, 3);
            let t = (ring[k]) as int;
            assert(t == e / 3);
            assert(tr[3 * t + ne % 3] == p);
            assert(0 <= ne % 3 < 3);
            assert(triangle_touches(tr, t, p));
        }
    } else {
        assert(spec_cell_ring(tr, he, np, p) =~= Seq::<usize>::empty());
    }
}

/// Traverse the incoming edges around a point, starting with `incoming_edge`.
pub fn edges_around_point(incoming_edge: usize) -> (r: EdgesAroundPoint)
    ensures
        r.curr == incoming_edge && r.last == incoming_edge,
{
    EdgesAroundPoint { curr: incoming_edge, last: incoming_edge }
}

/// State struct for the incoming-edge traversal around one point.
pub struct EdgesAroundPoint {
    pub curr: usize,
    pub last: usize,
}

impl EdgesAroundPoint {
    /// One step of the rotation; yields the current incoming edge and advances
    /// to the next one via the twin of the outgoing edge.
    pub fn next(&mut self, he: &Vec<usize>) -> (r: Option<usize>)
        requires
            old(self).curr == EMPTY || old(self).curr < he@.len(),
            he@.len() % 3 == 0,
            he@.len() < EMPTY,
        ensures
            old(self).curr == EMPTY ==> r is None && *final(self) == *old(self),
            old(self).curr != EMPTY ==> {
                let nxt = he@[spec_next_halfedge(old(self).curr as int)] as int;
                &&& r == Some(old(self).curr)
                &&& final(self).last == old(self).last
                &&& final(self).curr == if nxt != old(self).last {
                    nxt as usize
                } else {
                    EMPTY
                }
            },
    {
        if self.curr == EMPTY {
            return None;
        }
        let curr = self.curr;
        proof {
            assert(0 <= spec_next_halfedge(curr as int) < he@.len());
        }
        let next = he[next_halfedge(curr)];
        if next != self.last {
            self.curr = next;
        } else {
            self.curr = EMPTY;
        }
        Some(curr)
    }
}

/// A Voronoi cell around one input point.
#[derive(Debug, Clone)]
pub struct VoronoiCell {
    /// The vertices that form the cell. If this is a hull cell, these do not
    /// form a closed polygon.
    pub vertices: Vec<usize>,
    /// True if the cell surrounds a point on the convex hull.
    pub hull: bool,
}

/// The Voronoi-like dual of the Delaunay triangulation of a point set.
#[derive(Debug, Clone)]
pub struct Voronoi {
    /// The Voronoi cells. Each input point has a corresponding cell.
    pub cells: Vec<VoronoiCell>,
    /// The cell vertices: one centroid per triangle of the triangulation.
    pub vertices: Vec<Point>,
    /// The flat triangle list of the triangulation: point indices, three per
    /// triangle.
    pub triangles: Vec<usize>,
    /// The twin of each half-edge, or `EMPTY` on the hull.
    pub halfedges: Vec<usize>,
    /// The input point indices on the convex hull.
    pub hull: Vec<usize>,
}

impl Voronoi {
    /// Structural soundness with respect to `np` input points.
    pub open spec fn wf(self, np: int) -> bool {
        &&& halfedges_wf(self.triangles@, self.halfedges@)
        &&& tri_points_wf(self.triangles@, np)
        &&& hull_wf(self.hull@, np)
        &&& self.vertices@.len() == self.triangles@.len() / 3
        &&& self.cells@.len() == np
        &&& forall|i: int| 0 <= i < self.vertices@.len() ==> in_bound(#[trigger] self.vertices@[i])
        &&& forall|p: int, k: int|
            0 <= p < np && 0 <= k < self.cells@[p].vertices@.len() ==> (
            #[trigger] self.cells@[p].vertices@[k]) < self.vertices@.len()
    }

    /// The triangulation arrays are those of the input points, the vertices
    /// are the triangle centroids, and the cells are the rotation rings.
    pub open spec fn models(self, points: Seq<Point>) -> bool {
        &&& (usizes(self.triangles@), usizes(self.halfedges@), usizes(self.hull@))
            == triangulation_of(points_view(points))
        &&& forall|v: int|
            0 <= v < self.vertices@.len() ==> (#[trigger] self.vertices@[v]) == spec_centroid(
                points[self.triangles@[3 * v] as int],
                points[self.triangles@[3 * v + 1] as int],
                points[self.triangles@[3 * v + 2] as int],
            )
        &&& forall|p: int|
            0 <= p < self.cells@.len() ==> (#[trigger] self.cells@[p].vertices@) == spec_cell_ring(
                self.triangles@,
                self.halfedges@,
                points.len(),
                p,
            )
        &&& forall|p: int|
            0 <= p < self.cells@.len() ==> (#[trigger] self.cells@[p].hull) == self.hull@.contains(
                p as usize,
            )
    }

    pub fn new(points: &Vec<Point>) -> (r: Voronoi)
        requires
            forall|i: int| 0 <= i < points@.len() ==> in_bound(#[trigger] points@[i]),
        ensures
            r.wf(points@.len() as int),
            r.models(points@),
            r.triangles@.len() <= 6 * points@.len(),
    {
        let np = points.len();
        let (triangles, halfedges, hull) = triangulate_raw(points);

        // One vertex per triangle: its centroid.
        let ntri = triangles.len() / 3;
        let mut vertices: Vec<Point> = Vec::new();
        let mut t: usize = 0;
        while t < ntri
            invariant
                t <= ntri,
                ntri == triangles@.len() / 3,
                triangles@.len() % 3 == 0,
                triangles@.len() < EMPTY,
                tri_points_wf(triangles@, np as int),
                np == points@.len(),
                forall|i: int| 0 <= i < points@.len() ==> in_bound(#[trigger] points@[i]),
                vertices@.len() == t,
                forall|v: int|
                    0 <= v < t ==> (#[trigger] vertices@[v]) == spec_centroid(
                        points@[triangles@[3 * v] as int],
                        points@[triangles@[3 * v + 1] as int],
                        points@[triangles@[3 * v + 2] as int],
                    ),
                forall|i: int| 0 <= i < vertices@.len() ==> in_bound(#[trigger] vertices@[i]),
            decreases ntri - t,
        {
            proof {
                vstd::arithmetic::div_mod::lemma_fundamental_div_mod(triangles@.len() as int, 3);
                assert(3 * (t as int) + 2 < triangles@.len());
            }
            let a = points[triangles[3 * t]];
            let b = points[triangles[3 * t + 1]];
            let c = points[triangles[3 * t + 2]];
            vertices.push(centroid(a, b, c));
            t = t + 1;
        }

        let incoming = build_incoming_edge_index(&triangles, &halfedges, np);

        // Flag the points on the convex hull.
        let mut is_hull: Vec<bool> = Vec::new();
        let mut p: usize = 0;
        while p < np
            invariant
                p <= np,
                is_hull@.len() == p,
                forall|q: int| 0 <= q < p ==> (#[trigger] is_hull@[q]) == false,
            decreases np - p,
        {
            is_hull.push(false);
            p = p + 1;
        }
        let mut h: usize = 0;
        while h < hull.len()
            invariant
                h <= hull@.len(),
                hull_wf(hull@, np as int),
                is_hull@.len() == np,
                forall|q: int|
                    0 <= q < np ==> (#[trigger] is_hull@[q]) == exists|j: int|
                        0 <= j < h && hull@[j] == q,
            decreases hull@.len() - h,
        {
            is_hull.set(hull[h], true);
            h = h + 1;
        }
        proof {
            assert forall|q: int| 0 <= q < np implies (#[trigger] is_hull@[q]) == hull@.contains(
                q as usize,
            ) by {
                if is_hull@[q] {
                    let j = choose|j: int| 0 <= j < hull@.len() && hull@[j] == q;
                    assert(hull@[j] == q as usize);
                }
                if hull@.contains(q as usize) {
                    let j = choose|j: int| 0 <= j < hull@.len() && hull@[j] == q as usize;
                    assert(0 <= j < hull@.len() && hull@[j] == q);
                }
            }
        }

        // Walk the ring of incident triangles around each point.
        let mut cells: Vec<VoronoiCell> = Vec::new();
        let mut p: usize = 0;
        while p < np
            invariant
                p <= np,
                np == points@.len(),
                halfedges_wf(triangles@, halfedges@),
                tri_points_wf(triangles@, np as int),
                incoming@ == spec_incoming(triangles@, halfedges@, np as nat),
                incoming@.len() == np,
                is_hull@.len() == np,
                forall|q: int| 0 <= q < np ==> (#[trigger] is_hull@[q]) == hull@.contains(
                    q as usize),
                vertices@.len() == triangles@.len() / 3,
                cells@.len() == p,
                forall|q: int|
                    0 <= q < p ==> (#[trigger] cells@[q].vertices@) == spec_cell_ring(
                        triangles@,
                        halfedges@,
                        np as nat,
                        q,
                    ),
                forall|q: int| 0 <= q < p ==> (#[trigger] cells@[q].hull) == hull@.contains(
                    q as usize),
                forall|q: int, k: int|
                    0 <= q < p && 0 <= k < cells@[q].vertices@.len() ==> (
                    #[trigger] cells@[q].vertices@[k]) < vertices@.len(),
            decreases np - p,
        {
            proof {
                lemma_inc_upto_wf(triangles@, halfedges@, np as nat, triangles@.len());
            }
            let start = incoming[p];
            let mut cell_vertices: Vec<usize> = Vec::new();
            if start != EMPTY {
                let ghost fuel0: nat = halfedges@.len() + 1;
                let mut fuel: usize = halfedges.len() + 1;
                let mut curr: usize = start;
                while fuel > 0 && curr != EMPTY
                    invariant
                        halfedges_wf(triangles@, halfedges@),
                        curr == EMPTY || curr < halfedges@.len(),
                        spec_walk(halfedges@, start as int, start as int, fuel0) =~= cell_vertices@
                            + spec_walk(halfedges@, curr as int, start as int, fuel as nat),
                        forall|k: int|
                            0 <= k < cell_vertices@.len() ==> (#[trigger] cell_vertices@[k])
                                < halfedges@.len() / 3,
                    decreases fuel,
                {
                    proof {
                        assert(0 <= spec_next_halfedge(curr as int) < halfedges@.len());
                    }
                    cell_vertices.push(curr / 3);
                    let next = halfedges[next_halfedge(curr)];
                    if next != start {
                        curr = next;
                    } else {
                        curr = EMPTY;
                    }
                    fuel = fuel - 1;
                }
                proof {
                    if curr != EMPTY {
                        lemma_walk_range(
                            triangles@,
                            halfedges@,
                            curr as int,
                            start as int,
                            0nat,
                        );
                    }
                }
            }
            assert(cell_vertices@ == spec_cell_ring(triangles@, halfedges@, np as nat, p as int));
            let hull_flag = is_hull[p];
            cells.push(VoronoiCell { vertices: cell_vertices, hull: hull_flag });
            p = p + 1;
        }

        Voronoi { cells, vertices, triangles, halfedges, hull }
    }
}

} // verus!
