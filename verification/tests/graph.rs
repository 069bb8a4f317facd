use terragen::geom::Point;
use terragen::terrain_graph::{TerrainGraph, VertexType};
use terragen::voronoi::{edge_tuple_of_triangle, triangle_of_edge, Voronoi, EMPTY};

fn small_point_set() -> Vec<Point> {
    // A square with its center: four triangles around the middle point.
    vec![
        Point { x: 0, y: 0 },
        Point { x: 100_000, y: 0 },
        Point { x: 100_000, y: 100_000 },
        Point { x: 0, y: 100_000 },
        Point { x: 50_000, y: 50_000 },
    ]
}

#[test]
fn edge_index_helpers() {
    assert_eq!(edge_tuple_of_triangle(0), (0, 1, 2));
    assert_eq!(edge_tuple_of_triangle(3), (9, 10, 11));
    assert_eq!(triangle_of_edge(0), 0);
    assert_eq!(triangle_of_edge(2), 0);
    assert_eq!(triangle_of_edge(3), 1);
    assert_eq!(triangle_of_edge(11), 3);
}

#[test]
fn voronoi_of_a_square_with_center() {
    // The triangulation must be real: four triangles, one cell per point,
    // and the center cell closed.
    let points = small_point_set();
    let v = Voronoi::new(&points);
    assert_eq!(v.triangles.len(), 12);
    assert_eq!(v.vertices.len(), 4);
    assert_eq!(v.cells.len(), 5);
    assert_eq!(v.hull.len(), 4);
    // The center point is not on the hull and its cell ring has all four
    // triangle centroids.
    assert!(!v.cells[4].hull);
    let mut ring = v.cells[4].vertices.clone();
    ring.sort();
    assert_eq!(ring, vec![0, 1, 2, 3]);
    // Every centroid averages three of the input points.
    for t in 0..4 {
        let a = points[v.triangles[3 * t]];
        let b = points[v.triangles[3 * t + 1]];
        let c = points[v.triangles[3 * t + 2]];
        let expect_x = (a.x + b.x + c.x) / 3;
        let expect_y = (a.y + b.y + c.y) / 3;
        assert_eq!(v.vertices[t], Point { x: expect_x, y: expect_y });
    }
}

#[test]
fn dual_graph_consistency() {
    // For every edge, its two vertex endpoints and two point endpoints are
    // mutually consistent: each vertex is the centroid of a triangle that
    // contains both listed points.
    let points = small_point_set();
    let g = TerrainGraph::new(&points);
    assert!(g.edges.len() > 0);
    for e in g.edges.iter() {
        let (va, vb) = e.vertices;
        let (pa, pb) = e.points;
        assert!(va < g.vertices.len() && vb < g.vertices.len());
        assert!(pa < g.points.len() && pb < g.points.len());
        for v in [va, vb] {
            let corners = [
                g.voronoi.triangles[3 * v],
                g.voronoi.triangles[3 * v + 1],
                g.voronoi.triangles[3 * v + 2],
            ];
            assert!(corners.contains(&pa), "point {} missing from triangle {}", pa, v);
            assert!(corners.contains(&pb), "point {} missing from triangle {}", pb, v);
        }
    }
}

#[test]
fn interior_vertices_have_at_most_three_neighbors() {
    let points = small_point_set();
    let g = TerrainGraph::new(&points);
    assert_eq!(g.vertex_type.len(), g.vertices.len());
    for v in 0..g.vertices.len() {
        let ns = g.connected_vertices(v);
        assert!(ns.len() <= 3);
        for n in ns.iter() {
            assert!(*n < g.vertices.len());
        }
        match g.interior_connected_vertices(v) {
            Some((a, b, c)) => {
                assert_eq!(g.vertex_type[v], VertexType::Interior);
                assert!(a < g.vertices.len() && b < g.vertices.len() && c < g.vertices.len());
                let mut triple = vec![a, b, c];
                triple.sort();
                let mut conn = ns.clone();
                conn.sort();
                assert_eq!(triple, conn);
            },
            None => {
                assert_eq!(g.vertex_type[v], VertexType::Boundary);
            },
        }
    }
    // Boundary vertices never report an interior triple.
    for (v, t) in g.vertex_type.iter().enumerate() {
        if *t == VertexType::Boundary {
            assert!(g.interior_connected_vertices(v).is_none());
        }
    }
}

#[test]
fn boundary_and_interior_partition_the_vertices() {
    let points = small_point_set();
    let g = TerrainGraph::new(&points);
    assert_eq!(g.boundary.len() + g.interior.len(), g.vertices.len());
    for v in g.boundary.iter() {
        assert_eq!(g.vertex_type[*v], VertexType::Boundary);
    }
    for v in g.interior.iter() {
        assert_eq!(g.vertex_type[*v], VertexType::Interior);
    }
    // Hull cells are exactly the four square corners.
    for p in 0..points.len() {
        assert_eq!(g.is_hull_cell(p), p != 4);
        assert_eq!(g.cell(p).len() > 0, true);
    }
}

#[test]
fn halfedge_twins_are_involutive() {
    let points = small_point_set();
    let v = Voronoi::new(&points);
    for e in 0..v.halfedges.len() {
        let t = v.halfedges[e];
        if t != EMPTY {
            assert_eq!(v.halfedges[t], e);
            assert_ne!(t, e);
        }
    }
}
