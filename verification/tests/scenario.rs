use terragen::geom::Extent;
use terragen::regions::Regions;
use terragen::rng::Rng;
use terragen::{generate_points, generate_terrain, ConfigError, TerrainConfig};

#[test]
fn invalid_configurations_are_rejected() {
    let good = TerrainConfig {
        size: (100_000, 100_000),
        seed: 1,
        radius: 10_000,
        num_cities: 1,
        num_regions: 1,
    };
    assert!(good.validate().is_ok());

    let zero_domain = TerrainConfig { size: (0, 100_000), ..good };
    assert_eq!(zero_domain.validate(), Err(ConfigError::BadDomain));
    assert!(generate_terrain(zero_domain).is_err());

    let negative_domain = TerrainConfig { size: (100_000, -5), ..good };
    assert_eq!(negative_domain.validate(), Err(ConfigError::BadDomain));

    let zero_radius = TerrainConfig { radius: 0, ..good };
    assert_eq!(zero_radius.validate(), Err(ConfigError::BadRadius));
    assert!(generate_terrain(zero_radius).is_err());

    let too_fine = TerrainConfig { size: (100_000_000, 100_000_000), radius: 3, ..good };
    assert_eq!(too_fine.validate(), Err(ConfigError::BadRadius));
}

#[test]
fn standard_scenario_point_budget() {
    // A thousand-by-thousand unit domain with a ten unit radius yields on
    // the order of area / (radius^2 * sqrt(3)/2) interior points.
    let extent = Extent { x0: 0, y0: 0, x1: 1_000_000, y1: 1_000_000 };
    let mut rng = Rng::seed_from_u64(42);
    let (_points, n_interior) = generate_points(&mut rng, extent, 10_000);
    assert!(
        (8_000..=10_000).contains(&n_interior),
        "unexpected interior point count: {}",
        n_interior
    );
}

#[test]
fn standard_scenario_full_pipeline() {
    // Domain 1000x1000, radius 10, seed 42, five cities: five distinct city
    // vertices and a region assignment covering every vertex.
    let config = TerrainConfig {
        size: (1_000_000, 1_000_000),
        seed: 42,
        radius: 10_000,
        num_cities: 5,
        num_regions: 5,
    };
    let terrain = generate_terrain(config).unwrap();
    assert!(terrain.graph.vertices.len() > 0);
    let regions = Regions::new(&terrain);

    assert_eq!(regions.cities.len(), 5);
    for i in 0..regions.cities.len() {
        for j in (i + 1)..regions.cities.len() {
            assert_ne!(regions.cities[i], regions.cities[j], "cities {} and {} collide", i, j);
            let a = terrain.graph.vertices[regions.cities[i]];
            let b = terrain.graph.vertices[regions.cities[j]];
            assert!(a != b, "cities {} and {} share a position", i, j);
        }
    }

    // Region coverage: every vertex is assigned, and cities to themselves.
    assert_eq!(regions.nearest_city.len(), terrain.graph.vertices.len());
    for v in 0..regions.nearest_city.len() {
        let c = regions.nearest_city[v].expect("vertex left without a region");
        assert!(regions.cities.contains(&c));
        assert_eq!(regions.regions[v], c);
    }
    for city in regions.cities.iter() {
        assert_eq!(regions.nearest_city[*city], Some(*city));
    }

    // Habitability is normalized.
    assert_eq!(regions.habitability.len(), terrain.graph.vertices.len());
    for h in regions.habitability.iter() {
        assert!((0..=1_000_000).contains(h));
    }
}

#[test]
fn degenerate_scenario_huge_radius() {
    // A radius larger than the domain diagonal still produces a valid
    // (minimal) terrain from the boundary frame alone.
    let config = TerrainConfig {
        size: (1_000_000, 1_000_000),
        seed: 42,
        radius: 100_000_000,
        num_cities: 1,
        num_regions: 1,
    };
    let extent = Extent { x0: 0, y0: 0, x1: 1_000_000, y1: 1_000_000 };
    let mut rng = Rng::seed_from_u64(42);
    let (_points, n_interior) = generate_points(&mut rng, extent, 100_000_000);
    assert!(n_interior <= 1);

    let terrain = generate_terrain(config).unwrap();
    assert!(terrain.graph.vertices.len() >= 1);
    assert_eq!(terrain.data.elevation.len(), terrain.graph.vertices.len());
}

#[test]
fn identical_configurations_reproduce_bit_identical_results() {
    // Two pipeline runs with the same configuration, seed included, agree on
    // every produced structure.
    let config = TerrainConfig {
        size: (200_000, 200_000),
        seed: 1234,
        radius: 10_000,
        num_cities: 3,
        num_regions: 3,
    };
    let ta = generate_terrain(config).unwrap();
    let tb = generate_terrain(config).unwrap();

    assert_eq!(ta.graph.points.len(), tb.graph.points.len());
    for i in 0..ta.graph.points.len() {
        assert_eq!(ta.graph.points[i], tb.graph.points[i]);
    }
    assert_eq!(ta.graph.vertices.len(), tb.graph.vertices.len());
    for i in 0..ta.graph.vertices.len() {
        assert_eq!(ta.graph.vertices[i], tb.graph.vertices[i]);
    }
    assert_eq!(ta.data.elevation, tb.data.elevation);
    assert_eq!(ta.data.flux, tb.data.flux);
    assert_eq!(ta.data.flow, tb.data.flow);
    assert_eq!(ta.data.erosion, tb.data.erosion);
    assert_eq!(ta.features.cones.len(), tb.features.cones.len());
    for i in 0..ta.features.cones.len() {
        assert_eq!(ta.features.cones[i], tb.features.cones[i]);
    }
    assert_eq!(ta.features.smooth, tb.features.smooth);
    assert_eq!(ta.features.relax, tb.features.relax);

    let ra = Regions::new(&ta);
    let rb = Regions::new(&tb);
    assert_eq!(ra.cities, rb.cities);
    assert_eq!(ra.regions, rb.regions);
    assert_eq!(ra.habitability, rb.habitability);
}

#[test]
fn a_different_seed_changes_the_terrain() {
    let base = TerrainConfig {
        size: (200_000, 200_000),
        seed: 1,
        radius: 10_000,
        num_cities: 2,
        num_regions: 2,
    };
    let other = TerrainConfig { seed: 2, ..base };
    let ta = generate_terrain(base).unwrap();
    let tb = generate_terrain(other).unwrap();
    assert!(
        ta.graph.points.len() != tb.graph.points.len() || ta.data.elevation != tb.data.elevation
    );
}
