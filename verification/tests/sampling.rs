use terragen::geom::{Extent, Point};
use terragen::poisson::poisson;
use terragen::rng::Rng;

fn dsq(a: Point, b: Point) -> i64 {
    let dx = a.x - b.x;
    let dy = a.y - b.y;
    dx * dx + dy * dy
}

#[test]
fn poisson_property_pairwise_separation() {
    // All pairs of sampled points keep at least the requested separation.
    let extent = Extent { x0: 0, y0: 0, x1: 200_000, y1: 200_000 };
    let radius: i64 = 10_000;
    let mut rng = Rng::seed_from_u64(42);
    let points = poisson(&mut rng, extent, radius);
    assert!(points.len() > 10);
    for i in 0..points.len() {
        assert!(extent.x0 <= points[i].x && points[i].x <= extent.x1);
        assert!(extent.y0 <= points[i].y && points[i].y <= extent.y1);
        for j in (i + 1)..points.len() {
            assert!(
                dsq(points[i], points[j]) >= radius * radius,
                "points {} and {} are too close",
                i,
                j
            );
        }
    }
}

#[test]
fn poisson_coverage_spot_check() {
    // No disk of the separation radius centered well inside the domain is
    // empty of points, spot-checked over a coarse grid.
    let extent = Extent { x0: 0, y0: 0, x1: 200_000, y1: 200_000 };
    let radius: i64 = 10_000;
    let mut rng = Rng::seed_from_u64(7);
    let points = poisson(&mut rng, extent, radius);
    let mut cx = radius;
    while cx <= extent.x1 - radius {
        let mut cy = radius;
        while cy <= extent.y1 - radius {
            let center = Point { x: cx, y: cy };
            let covered = points.iter().any(|p| dsq(*p, center) <= radius * radius);
            assert!(covered, "no point within the radius of ({}, {})", cx, cy);
            cy += radius;
        }
        cx += radius;
    }
}

#[test]
fn poisson_is_deterministic_per_seed() {
    let extent = Extent { x0: 0, y0: 0, x1: 100_000, y1: 100_000 };
    let mut a = Rng::seed_from_u64(11);
    let mut b = Rng::seed_from_u64(11);
    let pa = poisson(&mut a, extent, 8_000);
    let pb = poisson(&mut b, extent, 8_000);
    assert_eq!(pa.len(), pb.len());
    for i in 0..pa.len() {
        assert_eq!(pa[i], pb[i]);
    }
}

#[test]
fn huge_radius_yields_a_single_interior_point() {
    // A radius larger than the domain diagonal leaves room for at most one
    // interior sample.
    let extent = Extent { x0: 0, y0: 0, x1: 100_000, y1: 100_000 };
    let mut rng = Rng::seed_from_u64(3);
    let points = poisson(&mut rng, extent, 100_000_000);
    assert!(points.len() <= 1);
    assert_eq!(points.len(), 1);
}
