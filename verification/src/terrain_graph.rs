use vstd::prelude::*;

use crate::geom::{in_bound, Point};
use crate::voronoi::{
    halfedges_wf, hull_wf, next_halfedge, spec_next_halfedge, tri_points_wf, triangle_of_edge,
    Voronoi, EMPTY,
};

verus! {

#[derive(Debug, Clone, Copy, Eq, PartialEq, Structural)]
pub enum VertexType {
    Interior,
    Boundary,
}

#[derive(Debug, Copy, Clone)]
pub struct TerrainGraphEdge {
    /// The indices of the vertices forming the edge.
    pub vertices: (usize, usize),
    /// The indices of the input points adjacent to the edge.
    pub points: (usize, usize),
}

/// The edge records the dual of half-edge `h`: it joins the vertices of the
/// two triangles meeting at `h` and separates the two input points of `h`.
pub open spec fn edge_of_halfedge(
    tr: Seq<usize>,
    he: Seq<usize>,
    ed: TerrainGraphEdge,
    h: int,
) -> bool {
    &&& 0 <= h < he.len()
    &&& he[h] != EMPTY
    &&& ed.vertices.0 == he[h] as int / 3
    &&& ed.vertices.1 == h / 3
    &&& ed.points.0 == tr[he[h] as int]
    &&& ed.points.1 == tr[h]
}

/// Some half-edge of the triangulation gives rise to this dual edge.
pub open spec fn edge_listed(tr: Seq<usize>, he: Seq<usize>, ed: TerrainGraphEdge) -> bool {
    exists|h: int| edge_of_halfedge(tr, he, ed, h)
}

/// The edge list and seen-marks after scanning half-edges `0..n`: each
/// unseen half-edge with a twin contributes one dual edge and marks both.
pub open spec fn edges_upto(tr: Seq<usize>, he: Seq<usize>, n: nat) -> (Seq<TerrainGraphEdge>, Seq<
    bool,
>)
    decreases n,
{
    if n == 0 {
        (Seq::empty(), Seq::new(he.len(), |i: int| false))
    } else {
        let (edges, seen) = edges_upto(tr, he, (n - 1) as nat);
        let e = (n - 1) as int;
        let out = he[e] as int;
        if seen[e] || he[e] == EMPTY {
            (edges, seen)
        } else {
            (
                edges.push(
                    TerrainGraphEdge {
                        vertices: ((out / 3) as usize, (e / 3) as usize),
                        points: (tr[out], tr[e]),
                    },
                ),
                seen.update(e, true).update(out, true),
            )
        }
    }
}

proof fn lemma_edges_upto_wf(tr: Seq<usize>, he: Seq<usize>, n: nat)
    requires
        halfedges_wf(tr, he),
        n <= he.len(),
    ensures
        edges_upto(tr, he, n).1.len() == he.len(),
        forall|k: int|
            0 <= k < edges_upto(tr, he, n).0.len() ==> edge_listed(
                tr,
                he,
                #[trigger] edges_upto(tr, he, n).0[k],
            ),
    decreases n,
{
    if n > 0 {
        lemma_edges_upto_wf(tr, he, (n - 1) as nat);
        let (edges, seen) = edges_upto(tr, he, (n - 1) as nat);
        let e = (n - 1) as int;
        if seen[e] || he[e] == EMPTY {
            assert(edges_upto(tr, he, n).0 == edges);
            assert forall|k: int|
                0 <= k < edges_upto(tr, he, n).0.len() implies edge_listed(
                tr,
                he,
                #[trigger] edges_upto(tr, he, n).0[k],
            ) by {
                assert(edges_upto(tr, he, n).0[k] == edges[k]);
                assert(edge_listed(tr, he, edges[k]));
            }
        } else {
            let ed = TerrainGraphEdge {
                vertices: (((he[e] as int) / 3) as usize, (e / 3) as usize),
                points: (tr[he[e] as int], tr[e]),
            };
            assert(edge_of_halfedge(tr, he, ed, e));
            assert forall|k: int|
                0 <= k < edges_upto(tr, he, n).0.len() implies edge_listed(
                tr,
                he,
                #[trigger] edges_upto(tr, he, n).0[k],
            ) by {
                if k < edges.len() {
                    assert(edges_upto(tr, he, n).0[k] == edges[k]);
                    assert(edge_listed(tr, he, edges[k]));
                } else {
                    assert(edges_upto(tr, he, n).0[k] == ed);
                    assert(edge_of_halfedge(tr, he, ed, e));
                    assert(edge_listed(tr, he, ed));
                }
            }
        }
    }
}

/// The vertex adjacency read off triangle `v`: the triangles across each of
/// its three half-edges, skipping hull sides.
pub open spec fn spec_connected(he: Seq<usize>, v: int) -> Seq<usize> {
    let s0 = if he[3 * v] != EMPTY {
        seq![((he[3 * v] as int) / 3) as usize]
    } else {
        Seq::empty()
    };
    let s1 = if he[3 * v + 1] != EMPTY {
        seq![((he[3 * v + 1] as int) / 3) as usize]
    } else {
        Seq::empty()
    };
    let s2 = if he[3 * v + 2] != EMPTY {
        seq![((he[3 * v + 2] as int) / 3) as usize]
    } else {
        Seq::empty()
    };
    s0 + s1 + s2
}

/// The dual graph of the terrain: Voronoi-like vertices, their boundary or
/// interior classification, and the dual edges.
#[derive(Debug, Clone)]
pub struct TerrainGraph {
    /// The terrain control points (the triangulation input points).
    pub points: Vec<Point>,
    /// The terrain vertices.
    pub vertices: Vec<Point>,
    /// The indices of the boundary vertices.
    pub boundary: Vec<usize>,
    /// The indices of the interior (non-boundary) vertices.
    pub interior: Vec<usize>,
    /// The type of each vertex.
    pub vertex_type: Vec<VertexType>,
    /// The terrain edges.
    pub edges: Vec<TerrainGraphEdge>,
    /// The Voronoi tesselation backing the terrain graph.
    pub voronoi: Voronoi,
}

impl TerrainGraph {
    pub open spec fn nv(self) -> int {
        self.vertices@.len() as int
    }

    /// A vertex is boundary when it lies on the cell ring of a hull point.
    pub open spec fn is_boundary_vertex(self, v: int) -> bool {
        exists|p: int|
            0 <= p < self.voronoi.cells@.len() && (#[trigger] self.voronoi.cells@[p]).hull
                && self.voronoi.cells@[p].vertices@.contains(v as usize)
    }

    /// A vertex whose own triangle has a side on the hull: one of its three
    /// half-edges has no twin.
    pub open spec fn has_missing_twin(self, v: int) -> bool {
        self.voronoi.halfedges@[3 * v] == EMPTY || self.voronoi.halfedges@[3 * v + 1] == EMPTY
            || self.voronoi.halfedges@[3 * v + 2] == EMPTY
    }

    pub open spec fn wf(self) -> bool {
        &&& self.voronoi.wf(self.points@.len() as int)
        &&& halfedges_wf(self.voronoi.triangles@, self.voronoi.halfedges@)
        &&& self.vertices@ == self.voronoi.vertices@
        &&& self.vertices@.len() == self.voronoi.triangles@.len() / 3
        &&& self.vertex_type@.len() == self.vertices@.len()
        &&& forall|i: int| 0 <= i < self.vertices@.len() ==> in_bound(#[trigger] self.vertices@[i])
        &&& forall|v: int|
            0 <= v < self.nv() ==> ((#[trigger] self.vertex_type@[v]) == VertexType::Boundary
                <==> self.is_boundary_vertex(v) || self.has_missing_twin(v))
        &&& forall|k: int|
            0 <= k < self.boundary@.len() ==> (#[trigger] self.boundary@[k]) < self.nv()
                && self.vertex_type@[self.boundary@[k] as int] == VertexType::Boundary
        &&& forall|k: int|
            0 <= k < self.interior@.len() ==> (#[trigger] self.interior@[k]) < self.nv()
                && self.vertex_type@[self.interior@[k] as int] == VertexType::Interior
        &&& forall|v: int|
            0 <= v < self.nv() && self.vertex_type@[v] == VertexType::Boundary
                ==> self.boundary@.contains(v as usize)
        &&& forall|v: int|
            0 <= v < self.nv() && self.vertex_type@[v] == VertexType::Interior
                ==> self.interior@.contains(v as usize)
        &&& forall|k1: int, k2: int|
            0 <= k1 < k2 < self.boundary@.len() ==> self.boundary@[k1] < self.boundary@[k2]
        &&& forall|k1: int, k2: int|
            0 <= k1 < k2 < self.interior@.len() ==> self.interior@[k1] < self.interior@[k2]
        &&& forall|k: int|
            0 <= k < self.edges@.len() ==> edge_listed(
                self.voronoi.triangles@,
                self.voronoi.halfedges@,
                #[trigger] self.edges@[k],
            )
    }

    /// Get the vertices forming the Voronoi cell around input point `p`.
    pub fn cell(&self, p: usize) -> (r: &Vec<usize>)
        requires
            self.wf(),
            p < self.points@.len(),
        ensures
            r@ == self.voronoi.cells@[p as int].vertices@,
    {
        &self.voronoi.cells[p].vertices
    }

    pub fn is_hull_cell(&self, p: usize) -> (r: bool)
        requires
            self.wf(),
            p < self.points@.len(),
        ensures
            r == self.voronoi.cells@[p as int].hull,
    {
        self.voronoi.cells[p].hull
    }

    /// The indices of the vertices connected to vertex `v`, in half-edge
    /// order.
    pub fn connected_vertices(&self, v: usize) -> (r: Vec<usize>)
        requires
            self.wf(),
            v < self.nv(),
        ensures
            r@ == spec_connected(self.voronoi.halfedges@, v as int),
            r@.len() <= 3,
            self.vertex_type@[v as int] == VertexType::Interior ==> r@.len() == 3,
            forall|k: int| 0 <= k < r@.len() ==> (#[trigger] r@[k]) < self.nv(),
    {
        proof {
            vstd::arithmetic::div_mod::lemma_fundamental_div_mod(
                self.voronoi.triangles@.len() as int,
                3,
            );
        }
        let he = &self.voronoi.halfedges;
        proof {
            assert(he@.len() == 3 * self.nv());
        }
        let mut r: Vec<usize> = Vec::new();
        let e0 = he[3 * v];
        if e0 != EMPTY {
            proof {
                vstd::arithmetic::div_mod::lemma_multiply_divide_lt(e0 as int, 3, self.nv());
            }
            r.push(triangle_of_edge(e0));
        }
        let e1 = he[3 * v + 1];
        if e1 != EMPTY {
            proof {
                vstd::arithmetic::div_mod::lemma_multiply_divide_lt(e1 as int, 3, self.nv());
            }
            r.push(triangle_of_edge(e1));
        }
        let e2 = he[3 * v + 2];
        if e2 != EMPTY {
            proof {
                vstd::arithmetic::div_mod::lemma_multiply_divide_lt(e2 as int, 3, self.nv());
            }
            r.push(triangle_of_edge(e2));
        }
        proof {
            assert(r@ =~= spec_connected(self.voronoi.halfedges@, v as int));
        }
        r
    }

    /// Get a triplet of connected vertex indices for an interior vertex.
    /// Returns `None` for a boundary vertex, or if a neighbor triangle is
    /// missing (which a sound triangulation never produces for an interior
    /// vertex).
    pub fn interior_connected_vertices(&self, v: usize) -> (r: Option<(usize, usize, usize)>)
        requires
            self.wf(),
            v < self.nv(),
        ensures
            r is None <==> self.vertex_type@[v as int] == VertexType::Boundary,
            r matches Some(t) ==> spec_connected(self.voronoi.halfedges@, v as int) == seq![
                t.0,
                t.1,
                t.2,
            ],
            r matches Some(t) ==> {
                let he = self.voronoi.halfedges@;
                &&& self.vertex_type@[v as int] == VertexType::Interior
                &&& t.0 < self.nv() && t.1 < self.nv() && t.2 < self.nv()
                &&& he[3 * v as int] != EMPTY && he[3 * v as int + 1] != EMPTY && he[3 * v as int
                    + 2] != EMPTY
                &&& t.0 == (he[3 * v as int] as int) / 3
                &&& t.1 == (he[3 * v as int + 1] as int) / 3
                &&& t.2 == (he[3 * v as int + 2] as int) / 3
            },
    {
        if self.vertex_type[v] == VertexType::Boundary {
            return None;
        }
        proof {
            vstd::arithmetic::div_mod::lemma_fundamental_div_mod(
                self.voronoi.triangles@.len() as int,
                3,
            );
        }
        let he = &self.voronoi.halfedges;
        let ha = he[3 * v];
        let hb = he[3 * v + 1];
        let hc = he[3 * v + 2];
        if ha == EMPTY || hb == EMPTY || hc == EMPTY {
            return None;
        }
        proof {
            assert(self.voronoi.halfedges@.len() == 3 * self.nv());
            vstd::arithmetic::div_mod::lemma_multiply_divide_lt(ha as int, 3, self.nv());
            vstd::arithmetic::div_mod::lemma_multiply_divide_lt(hb as int, 3, self.nv());
            vstd::arithmetic::div_mod::lemma_multiply_divide_lt(hc as int, 3, self.nv());
        }
        Some((triangle_of_edge(ha), triangle_of_edge(hb), triangle_of_edge(hc)))
    }
}

impl TerrainGraph {
    pub fn new(points: &Vec<Point>) -> (r: TerrainGraph)
        requires
            forall|i: int| 0 <= i < points@.len() ==> in_bound(#[trigger] points@[i]),
        ensures
            r.wf(),
            r.points@ == points@,
            r.voronoi.models(points@),
            r.edges@ == edges_upto(r.voronoi.triangles@, r.voronoi.halfedges@,
                r.voronoi.halfedges@.len()).0,
            forall|k1: int, k2: int|
                0 <= k1 < k2 < r.boundary@.len() ==> r.boundary@[k1] < r.boundary@[k2],
            forall|k1: int, k2: int|
                0 <= k1 < k2 < r.interior@.len() ==> r.interior@[k1] < r.interior@[k2],
    {
        let np = points.len();
        let voronoi = Voronoi::new(points);

        // Copy the Voronoi vertices.
        let nv = voronoi.vertices.len();
        let mut vertices: Vec<Point> = Vec::new();
        let mut t: usize = 0;
        while t < nv
            invariant
                t <= nv,
                nv == voronoi.vertices@.len(),
                vertices@ =~= voronoi.vertices@.take(t as int),
            decreases nv - t,
        {
            vertices.push(voronoi.vertices[t]);
            t = t + 1;
        }
        proof {
            assert(vertices@ =~= voronoi.vertices@);
        }

        // Classify every vertex on the ring of a hull cell as boundary.
        let mut vertex_type: Vec<VertexType> = Vec::new();
        let mut v: usize = 0;
        while v < nv
            invariant
                v <= nv,
                vertex_type@.len() == v,
                forall|q: int| 0 <= q < v ==> (#[trigger] vertex_type@[q]) == VertexType::Interior,
            decreases nv - v,
        {
            vertex_type.push(VertexType::Interior);
            v = v + 1;
        }
        let mut h: usize = 0;
        while h < voronoi.hull.len()
            invariant
                h <= voronoi.hull@.len(),
                voronoi.wf(np as int),
                np == points@.len(),
                nv == voronoi.vertices@.len(),
                vertex_type@.len() == nv,
                forall|q: int|
                    0 <= q < nv ==> ((#[trigger] vertex_type@[q]) == VertexType::Boundary
                        <==> exists|j: int|
                        0 <= j < h && voronoi.cells@[voronoi.hull@[j] as int].vertices@.contains(
                            q as usize,
                        )),
            decreases voronoi.hull@.len() - h,
        {
            let p = voronoi.hull[h];
            let ring_len = voronoi.cells[p].vertices.len();
            let mut k: usize = 0;
            while k < ring_len
                invariant
                    k <= ring_len,
                    h < voronoi.hull@.len(),
                    voronoi.wf(np as int),
                    np == points@.len(),
                    nv == voronoi.vertices@.len(),
                    p == voronoi.hull@[h as int],
                    p < np,
                    ring_len == voronoi.cells@[p as int].vertices@.len(),
                    vertex_type@.len() == nv,
                    forall|q: int|
                        0 <= q < nv ==> ((#[trigger] vertex_type@[q]) == VertexType::Boundary
                            <==> (exists|j: int|
                            0 <= j < h && voronoi.cells@[voronoi.hull@[j] as int].vertices@.contains(
                                q as usize,
                            )) || (exists|kk: int|
                            0 <= kk < k && voronoi.cells@[p as int].vertices@[kk] == q)),
                decreases ring_len - k,
            {
                let ring_v = voronoi.cells[p].vertices[k];
                vertex_type.set(ring_v, VertexType::Boundary);
                proof {
                    assert(voronoi.cells@[p as int].vertices@[k as int] == ring_v);
                }
                k = k + 1;
            }
            h = h + 1;
            proof {
                assert forall|q: int|
                    0 <= q < nv implies ((#[trigger] vertex_type@[q]) == VertexType::Boundary
                    <==> exists|j: int|
                    0 <= j < h && voronoi.cells@[voronoi.hull@[j] as int].vertices@.contains(
                        q as usize,
                    )) by {
                    if vertex_type@[q] == VertexType::Boundary {
                        if exists|kk: int|
                            0 <= kk < ring_len && voronoi.cells@[p as int].vertices@[kk] == q {
                            let kk = choose|kk: int|
                                0 <= kk < ring_len && voronoi.cells@[p as int].vertices@[kk] == q;
                            assert(voronoi.cells@[voronoi.hull@[h - 1] as int].vertices@.contains(
                                q as usize,
                            ));
                        }
                    } else {
                        if exists|j: int|
                            0 <= j < h
                                && voronoi.cells@[voronoi.hull@[j] as int].vertices@.contains(
                                q as usize,
                            ) {
                            let j = choose|j: int|
                                0 <= j < h
                                    && voronoi.cells@[voronoi.hull@[j] as int].vertices@.contains(
                                    q as usize,
                                );
                            if j == h - 1 {
                                let kk = choose|kk: int|
                                    0 <= kk < voronoi.cells@[p as int].vertices@.len()
                                        && voronoi.cells@[p as int].vertices@[kk] == q as usize;
                                assert(false);
                            } else {
                                assert(false);
                            }
                        }
                    }
                }
            }
        }

        // A vertex whose triangle has a hull side is boundary as well.
        let tr_len0 = voronoi.triangles.len();
        let mut v2: usize = 0;
        while v2 < nv
            invariant
                v2 <= nv,
                voronoi.wf(np as int),
                np == points@.len(),
                nv == voronoi.vertices@.len(),
                nv == voronoi.triangles@.len() / 3,
                tr_len0 == voronoi.triangles@.len(),
                vertex_type@.len() == nv,
                forall|q: int|
                    v2 <= q < nv ==> ((#[trigger] vertex_type@[q]) == VertexType::Boundary
                        <==> exists|j: int|
                        0 <= j < voronoi.hull@.len()
                            && voronoi.cells@[voronoi.hull@[j] as int].vertices@.contains(
                            q as usize,
                        )),
                forall|q: int|
                    0 <= q < v2 ==> ((#[trigger] vertex_type@[q]) == VertexType::Boundary
                        <==> (exists|j: int|
                        0 <= j < voronoi.hull@.len()
                            && voronoi.cells@[voronoi.hull@[j] as int].vertices@.contains(
                            q as usize,
                        )) || voronoi.halfedges@[3 * q] == EMPTY || voronoi.halfedges@[3 * q + 1]
                        == EMPTY || voronoi.halfedges@[3 * q + 2] == EMPTY),
            decreases nv - v2,
        {
            proof {
                vstd::arithmetic::div_mod::lemma_fundamental_div_mod(
                    voronoi.triangles@.len() as int,
                    3,
                );
                assert(3 * (v2 as int) + 2 < voronoi.halfedges@.len());
            }
            let ea = voronoi.halfedges[3 * v2];
            let eb = voronoi.halfedges[3 * v2 + 1];
            let ec = voronoi.halfedges[3 * v2 + 2];
            if ea == EMPTY || eb == EMPTY || ec == EMPTY {
                vertex_type.set(v2, VertexType::Boundary);
            }
            v2 = v2 + 1;
        }

        // Split the vertex indices by class.
        let mut boundary: Vec<usize> = Vec::new();
        let mut interior: Vec<usize> = Vec::new();
        let mut v: usize = 0;
        while v < nv
            invariant
                v <= nv,
                vertex_type@.len() == nv,
                forall|k: int|
                    0 <= k < boundary@.len() ==> (#[trigger] boundary@[k]) < v
                        && vertex_type@[boundary@[k] as int] == VertexType::Boundary,
                forall|k: int|
                    0 <= k < interior@.len() ==> (#[trigger] interior@[k]) < v
                        && vertex_type@[interior@[k] as int] == VertexType::Interior,
                forall|q: int|
                    0 <= q < v && vertex_type@[q] == VertexType::Boundary ==> boundary@.contains(
                        q as usize,
                    ),
                forall|q: int|
                    0 <= q < v && vertex_type@[q] == VertexType::Interior ==> interior@.contains(
                        q as usize,
                    ),
                forall|k1: int, k2: int|
                    0 <= k1 < k2 < boundary@.len() ==> boundary@[k1] < boundary@[k2],
                forall|k1: int, k2: int|
                    0 <= k1 < k2 < interior@.len() ==> interior@[k1] < interior@[k2],
            decreases nv - v,
        {
            if vertex_type[v] == VertexType::Boundary {
                let ghost pre_b = boundary@;
                boundary.push(v);
                proof {
                    assert forall|q: int|
                        0 <= q < v + 1 && vertex_type@[q] == VertexType::Boundary
                        implies boundary@.contains(q as usize) by {
                        if q == v {
                            assert(boundary@[boundary@.len() - 1] == q as usize);
                        } else {
                            let k = choose|k: int| 0 <= k < pre_b.len() && pre_b[k] == q as usize;
                            assert(boundary@[k] == q as usize);
                        }
                    }
                }
            } else {
                let ghost pre_i = interior@;
                interior.push(v);
                proof {
                    assert forall|q: int|
                        0 <= q < v + 1 && vertex_type@[q] == VertexType::Interior
                        implies interior@.contains(q as usize) by {
                        if q == v {
                            assert(interior@[interior@.len() - 1] == q as usize);
                        } else {
                            let k = choose|k: int| 0 <= k < pre_i.len() && pre_i[k] == q as usize;
                            assert(interior@[k] == q as usize);
                        }
                    }
                }
            }
            v = v + 1;
        }

        // Each half-edge with an unseen twin contributes one dual edge.
        let tr_len = voronoi.triangles.len();
        let mut edges: Vec<TerrainGraphEdge> = Vec::new();
        let mut halfedge_seen: Vec<bool> = Vec::new();
        let mut e: usize = 0;
        while e < tr_len
            invariant
                e <= tr_len,
                halfedge_seen@.len() == e,
                forall|q: int| 0 <= q < e ==> (#[trigger] halfedge_seen@[q]) == false,
            decreases tr_len - e,
        {
            halfedge_seen.push(false);
            e = e + 1;
        }
        proof {
            assert(halfedge_seen@ =~= edges_upto(voronoi.triangles@, voronoi.halfedges@, 0).1);
            assert(edges@ =~= edges_upto(voronoi.triangles@, voronoi.halfedges@, 0).0);
        }
        let mut e: usize = 0;
        while e < tr_len
            invariant
                e <= tr_len,
                tr_len == voronoi.triangles@.len(),
                voronoi.wf(np as int),
                halfedges_wf(voronoi.triangles@, voronoi.halfedges@),
                np == points@.len(),
                nv == voronoi.vertices@.len(),
                nv == voronoi.triangles@.len() / 3,
                halfedge_seen@.len() == tr_len,
                (edges@, halfedge_seen@) == edges_upto(
                    voronoi.triangles@,
                    voronoi.halfedges@,
                    e as nat,
                ),
            decreases tr_len - e,
        {
            let inc_halfedge = e;
            let out_halfedge = voronoi.halfedges[e];
            if !halfedge_seen[inc_halfedge] && out_halfedge != EMPTY {
                halfedge_seen.set(inc_halfedge, true);
                halfedge_seen.set(out_halfedge, true);
                proof {
                    vstd::arithmetic::div_mod::lemma_fundamental_div_mod(tr_len as int, 3);
                    vstd::arithmetic::div_mod::lemma_multiply_divide_lt(
                        out_halfedge as int,
                        3,
                        nv as int,
                    );
                    vstd::arithmetic::div_mod::lemma_multiply_divide_lt(e as int, 3, nv as int);
                }
                let va = triangle_of_edge(out_halfedge);
                let vb = triangle_of_edge(inc_halfedge);
                let pa = voronoi.triangles[out_halfedge];
                let pb = voronoi.triangles[inc_halfedge];
                edges.push(TerrainGraphEdge { vertices: (va, vb), points: (pa, pb) });
            }
            e = e + 1;
            proof {
                assert((edges@, halfedge_seen@) =~~= edges_upto(
                    voronoi.triangles@,
                    voronoi.halfedges@,
                    e as nat,
                ));
            }
        }

        let r = TerrainGraph {
            points: points.clone(),
            vertices,
            boundary,
            interior,
            vertex_type,
            edges,
            voronoi,
        };
        proof {
            assert(r.points@ =~= points@);
            lemma_edges_upto_wf(r.voronoi.triangles@, r.voronoi.halfedges@, tr_len as nat);
            assert forall|q: int|
                0 <= q < r.nv() implies ((#[trigger] r.vertex_type@[q]) == VertexType::Boundary
                <==> r.is_boundary_vertex(q) || r.has_missing_twin(q)) by {
                let hull = r.voronoi.hull@;
                let cells = r.voronoi.cells@;
                if r.vertex_type@[q] == VertexType::Boundary {
                    if !(r.voronoi.halfedges@[3 * q] == EMPTY || r.voronoi.halfedges@[3 * q + 1]
                        == EMPTY || r.voronoi.halfedges@[3 * q + 2] == EMPTY) {
                        let j = choose|j: int|
                            0 <= j < hull.len() && cells[hull[j] as int].vertices@.contains(
                                q as usize,
                            );
                        assert(cells[hull[j] as int].hull);
                        assert(r.is_boundary_vertex(q));
                    }
                } else {
                    if r.is_boundary_vertex(q) {
                        let p = choose|p: int|
                            0 <= p < cells.len() && (#[trigger] cells[p]).hull
                                && cells[p].vertices@.contains(q as usize);
                        assert(hull.contains(p as usize));
                        let j = choose|j: int| 0 <= j < hull.len() && hull[j] == p as usize;
                        assert(cells[hull[j] as int].vertices@.contains(q as usize));
                        assert(false);
                    }
                }
            }
            assert(r.voronoi.wf(r.points@.len() as int));
            assert(halfedges_wf(r.voronoi.triangles@, r.voronoi.halfedges@));
            assert(r.vertices@ == r.voronoi.vertices@);
            assert(r.vertices@.len() == r.voronoi.triangles@.len() / 3);
            assert(r.vertex_type@.len() == r.vertices@.len());
            assert(forall|i: int|
                0 <= i < r.vertices@.len() ==> in_bound(#[trigger] r.vertices@[i]));
            assert(forall|k: int|
                0 <= k < r.boundary@.len() ==> (#[trigger] r.boundary@[k]) < r.nv()
                    && r.vertex_type@[r.boundary@[k] as int] == VertexType::Boundary);
            assert(forall|k: int|
                0 <= k < r.interior@.len() ==> (#[trigger] r.interior@[k]) < r.nv()
                    && r.vertex_type@[r.interior@[k] as int] == VertexType::Interior);
            assert(forall|v: int|
                0 <= v < r.nv() && r.vertex_type@[v] == VertexType::Boundary
                    ==> r.boundary@.contains(v as usize));
            assert(forall|v: int|
                0 <= v < r.nv() && r.vertex_type@[v] == VertexType::Interior
                    ==> r.interior@.contains(v as usize));
            assert(r.edges@ == edges_upto(
                r.voronoi.triangles@,
                r.voronoi.halfedges@,
                tr_len as nat,
            ).0);
            assert forall|k: int|
                0 <= k < r.edges@.len() implies edge_listed(
                r.voronoi.triangles@,
                r.voronoi.halfedges@,
                #[trigger] r.edges@[k],
            ) by {
                assert(r.edges@[k] == edges_upto(
                    r.voronoi.triangles@,
                    r.voronoi.halfedges@,
                    tr_len as nat,
                ).0[k]);
            }
            assert(r.wf());
        }
        r
    }
}

/// A strictly increasing list of indices below `n` has at most `n` entries.
pub proof fn lemma_strict_increasing_len(s: Seq<usize>, n: int)
    requires
        forall|k1: int, k2: int| 0 <= k1 < k2 < s.len() ==> s[k1] < s[k2],
        forall|k: int| 0 <= k < s.len() ==> (#[trigger] s[k]) < n,
        0 <= n,
    ensures
        s.len() <= n,
{
    if s.len() > 0 {
        lemma_strict_increasing_index(s, s.len() - 1);
    }
}

proof fn lemma_strict_increasing_index(s: Seq<usize>, i: int)
    requires
        forall|k1: int, k2: int| 0 <= k1 < k2 < s.len() ==> s[k1] < s[k2],
        0 <= i < s.len(),
    ensures
        s[i] >= i,
    decreases i,
{
    if i > 0 {
        lemma_strict_increasing_index(s, i - 1);
    }
}

/// Adjacency is symmetric: when the rotation at `v` reaches `u`, the
/// rotation at `u` reaches `v` back across the twin of the same half-edge.
#[verifier::rlimit(100)]
pub proof fn lemma_connected_symmetric(g: TerrainGraph, v: int, u: int)
    requires
        g.wf(),
        0 <= v < g.nv(),
        0 <= u < g.nv(),
        spec_connected(g.voronoi.halfedges@, v).contains(u as usize),
    ensures
        spec_connected(g.voronoi.halfedges@, u).contains(v as usize),
{
    let he = g.voronoi.halfedges@;
    vstd::arithmetic::div_mod::lemma_fundamental_div_mod(he.len() as int, 3);
    // Which of the three sides of triangle `v` reached `u`.
    let s0 = if he[3 * v] != EMPTY {
        seq![(((he[3 * v] as int) / 3) as usize)]
    } else {
        Seq::<usize>::empty()
    };
    let s1 = if he[3 * v + 1] != EMPTY {
        seq![(((he[3 * v + 1] as int) / 3) as usize)]
    } else {
        Seq::<usize>::empty()
    };
    let s2 = if he[3 * v + 2] != EMPTY {
        seq![(((he[3 * v + 2] as int) / 3) as usize)]
    } else {
        Seq::<usize>::empty()
    };
    assert(spec_connected(he, v) == s0 + s1 + s2);
    let k = choose|k: int|
        0 <= k < spec_connected(he, v).len() && spec_connected(he, v)[k] == u as usize;
    let e: int = if k < s0.len() {
        3 * v
    } else if k < s0.len() + s1.len() {
        3 * v + 1
    } else {
        3 * v + 2
    };
    if k < s0.len() {
        assert(spec_connected(he, v)[k] == s0[k]);
        assert(s0.len() == 1 && k == 0);
        assert(he[e] != EMPTY);
        assert((((he[e] as int) / 3) as usize) == u as usize);
    } else if k < s0.len() + s1.len() {
        assert(spec_connected(he, v)[k] == s1[k - s0.len()]);
        assert(s1.len() == 1 && k - s0.len() == 0);
        assert(he[e] != EMPTY);
        assert((((he[e] as int) / 3) as usize) == u as usize);
    } else {
        assert(spec_connected(he, v)[k] == s2[k - s0.len() - s1.len()]);
        assert(s2.len() == 1 && k - s0.len() - s1.len() == 0);
        assert(he[e] != EMPTY);
        assert((((he[e] as int) / 3) as usize) == u as usize);
    }
    vstd::arithmetic::div_mod::lemma_multiply_divide_lt(he[e] as int, 3, he.len() as int / 3);
    vstd::arithmetic::div_mod::lemma_div_pos_is_pos(he[e] as int, 3);
    assert((he[e] as int) / 3 == u);
    let t = he[e] as int;
    // The twin sits inside triangle `u`, and its own twin leads back to `v`.
    vstd::arithmetic::div_mod::lemma_fundamental_div_mod(t, 3);
    vstd::arithmetic::div_mod::lemma_mod_division_less_than_divisor(t, 3);
    assert(t == 3 * u + t % 3);
    assert(he[t] == e);
    assert((e as int) / 3 == v) by (nonlinear_arith)
        requires
            3 * v <= e <= 3 * v + 2,
            v >= 0,
    ;
    let u0 = if he[3 * u] != EMPTY {
        seq![(((he[3 * u] as int) / 3) as usize)]
    } else {
        Seq::<usize>::empty()
    };
    let u1 = if he[3 * u + 1] != EMPTY {
        seq![(((he[3 * u + 1] as int) / 3) as usize)]
    } else {
        Seq::<usize>::empty()
    };
    let u2 = if he[3 * u + 2] != EMPTY {
        seq![(((he[3 * u + 2] as int) / 3) as usize)]
    } else {
        Seq::<usize>::empty()
    };
    assert(spec_connected(he, u) == u0 + u1 + u2);
    if t % 3 == 0 {
        assert(he[3 * u] == e);
        assert(u0[0] == v as usize);
        assert(spec_connected(he, u)[0] == v as usize);
    } else if t % 3 == 1 {
        assert(he[3 * u + 1] == e);
        assert(u1[0] == v as usize);
        assert(spec_connected(he, u)[u0.len() as int] == v as usize);
    } else {
        assert(he[3 * u + 2] == e);
        assert(u2[0] == v as usize);
        assert(spec_connected(he, u)[(u0.len() + u1.len()) as int] == v as usize);
    }
}

/// Dual-graph consistency: each edge joins two valid vertices, and its two
/// input points are corners of both endpoint triangles (each vertex is the
/// centroid of a triangle containing both points).
pub proof fn lemma_edge_consistency(g: TerrainGraph, k: int)
    requires
        g.wf(),
        0 <= k < g.edges@.len(),
    ensures
        g.edges@[k].vertices.0 < g.nv(),
        g.edges@[k].vertices.1 < g.nv(),
        g.edges@[k].points.0 < g.points@.len(),
        g.edges@[k].points.1 < g.points@.len(),
        exists|oa: int|
            0 <= oa < 3 && (#[trigger] g.voronoi.triangles@[3 * (g.edges@[k].vertices.0 as int)
                + oa]) == g.edges@[k].points.0,
        exists|oa: int|
            0 <= oa < 3 && (#[trigger] g.voronoi.triangles@[3 * (g.edges@[k].vertices.0 as int)
                + oa]) == g.edges@[k].points.1,
        exists|oa: int|
            0 <= oa < 3 && (#[trigger] g.voronoi.triangles@[3 * (g.edges@[k].vertices.1 as int)
                + oa]) == g.edges@[k].points.0,
        exists|oa: int|
            0 <= oa < 3 && (#[trigger] g.voronoi.triangles@[3 * (g.edges@[k].vertices.1 as int)
                + oa]) == g.edges@[k].points.1,
{
    let tr = g.voronoi.triangles@;
    let he = g.voronoi.halfedges@;
    let ed = g.edges@[k];
    let h = choose|h: int| edge_of_halfedge(tr, he, ed, h);
    let t = he[h] as int;
    vstd::arithmetic::div_mod::lemma_fundamental_div_mod(tr.len() as int, 3);
    vstd::arithmetic::div_mod::lemma_multiply_divide_lt(h, 3, tr.len() as int / 3);
    vstd::arithmetic::div_mod::lemma_multiply_divide_lt(t, 3, tr.len() as int / 3);
    // Place h and t inside their triangles.
    vstd::arithmetic::div_mod::lemma_fundamental_div_mod(h, 3);
    vstd::arithmetic::div_mod::lemma_fundamental_div_mod(t, 3);
    vstd::arithmetic::div_mod::lemma_mod_division_less_than_divisor(h, 3);
    vstd::arithmetic::div_mod::lemma_mod_division_less_than_divisor(t, 3);
    // ed.points.1 == tr[h] is a corner of triangle h/3 at offset h%3.
    assert(tr[3 * (ed.vertices.1 as int) + h % 3] == ed.points.1);
    assert(tr[3 * (ed.vertices.0 as int) + t % 3] == ed.points.0);
    // The twin pairing carries each point across to the other triangle.
    let nh = spec_next_halfedge(h);
    let nt = spec_next_halfedge(t);
    assert(tr[t] == tr[nh] && tr[nt] == tr[h]);
    assert(nh / 3 == h / 3 && nt / 3 == t / 3) by (nonlinear_arith)
        requires
            nh == spec_next_halfedge(h),
            nt == spec_next_halfedge(t),
            h >= 0,
            t >= 0,
    ;
    vstd::arithmetic::div_mod::lemma_fundamental_div_mod(nh, 3);
    vstd::arithmetic::div_mod::lemma_fundamental_div_mod(nt, 3);
    vstd::arithmetic::div_mod::lemma_mod_division_less_than_divisor(nh, 3);
    vstd::arithmetic::div_mod::lemma_mod_division_less_than_divisor(nt, 3);
    assert(tr[3 * (ed.vertices.1 as int) + nh % 3] == ed.points.0);
    assert(tr[3 * (ed.vertices.0 as int) + nt % 3] == ed.points.1);
}

} // verus!
