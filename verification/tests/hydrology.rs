use terragen::erosion::{generate_erosion, generate_flow, generate_flux, traverse_flow_graph};
use terragen::geom::{Extent, Point};
use terragen::rng::Rng;
use terragen::terrain_graph::{TerrainGraph, VertexType};
use terragen::{generate_points, generate_terrain, TerrainConfig};

fn small_terrain_graph() -> TerrainGraph {
    let extent = Extent { x0: 0, y0: 0, x1: 120_000, y1: 120_000 };
    let mut rng = Rng::seed_from_u64(5);
    let (points, _) = generate_points(&mut rng, extent, 12_000);
    TerrainGraph::new(&points)
}

#[test]
fn flow_chains_terminate_and_boundaries_are_sinks() {
    // Following any flow chain reaches a terminal within the vertex count:
    // the flow map has no cycles.
    let g = small_terrain_graph();
    let nv = g.vertices.len();
    let elevation: Vec<i64> = (0..nv).map(|v| ((v * 7919) % 1000) as i64).collect();
    let flow = generate_flow(&g, &elevation);
    assert_eq!(flow.len(), nv);
    for v in 0..nv {
        if g.vertex_type[v] == VertexType::Boundary {
            assert_eq!(flow[v], None);
        }
        let mut steps = 0;
        let mut it = traverse_flow_graph(&flow, v);
        while let Some(_) = it.next() {
            steps += 1;
            assert!(steps <= nv, "flow chain from {} did not terminate", v);
        }
    }
}

#[test]
fn flow_is_invariant_under_uniform_elevation_shift() {
    // The priority flood only compares elevations, so shifting every
    // elevation by the same amount leaves the whole flow array unchanged.
    let g = small_terrain_graph();
    let nv = g.vertices.len();
    let elevation: Vec<i64> = (0..nv).map(|v| ((v * 613) % 9000) as i64 - 4000).collect();
    let shifted: Vec<i64> = elevation.iter().map(|e| e + 12_345).collect();
    let fa = generate_flow(&g, &elevation);
    let fb = generate_flow(&g, &shifted);
    assert_eq!(fa, fb);
}

#[test]
fn flux_accumulates_downstream() {
    // Flux at every vertex is at least the uniform rainfall unit, and never
    // decreases along a flow edge.
    let g = small_terrain_graph();
    let nv = g.vertices.len();
    let elevation: Vec<i64> = (0..nv).map(|v| ((v * 131) % 5000) as i64).collect();
    let flow = generate_flow(&g, &elevation);
    let flux = generate_flux(&g, &flow);
    assert_eq!(flux.len(), nv);
    for v in 0..nv {
        assert!(flux[v] >= 1);
        if let Some(u) = flow[v] {
            assert!(flux[u] >= flux[v], "flux dropped along the edge {} -> {}", v, u);
        }
    }
    // At least one vertex actually collects upstream water.
    assert!(flux.iter().any(|f| *f > 1));
}

#[test]
fn erosion_is_bounded_and_zero_on_the_boundary() {
    let g = small_terrain_graph();
    let nv = g.vertices.len();
    let elevation: Vec<i64> = (0..nv).map(|v| ((v * 271) % 20_000) as i64).collect();
    let flow = generate_flow(&g, &elevation);
    let flux = generate_flux(&g, &flow);
    let erosion = generate_erosion(&g, &flux, &elevation);
    assert_eq!(erosion.len(), nv);
    for v in 0..nv {
        assert!((0..=20).contains(&erosion[v]));
        if g.vertex_type[v] == VertexType::Boundary {
            assert_eq!(erosion[v], 0);
        }
    }
}

#[test]
fn sea_level_balances_generated_terrain() {
    // After the sea-level fix the land/water split of a generated terrain is
    // nearly balanced (exactly balanced when no elevations tie).
    let config = TerrainConfig {
        size: (300_000, 300_000),
        seed: 9,
        radius: 12_000,
        num_cities: 2,
        num_regions: 2,
    };
    let terrain = generate_terrain(config).unwrap();
    let ge = terrain.data.elevation.iter().filter(|&&x| x >= 0).count() as i64;
    let lt = terrain.data.elevation.iter().filter(|&&x| x < 0).count() as i64;
    let ties = {
        let mut sorted = terrain.data.elevation.clone();
        sorted.sort();
        sorted.windows(2).filter(|w| w[0] == w[1]).count() as i64
    };
    assert!(
        (ge - lt).abs() <= 1 + ties,
        "unbalanced split: {} at or above, {} below, {} ties",
        ge,
        lt,
        ties
    );
}
