//! Procedural terrain synthesis over a planar dual graph, verified end to
//! end: Poisson-disk point sampling, a Voronoi-like dual of the Delaunay
//! triangulation, seeded elevation features, a priority-flood hydrology
//! simulation with an erosion feedback loop, and a weighted multi-source
//! region partition. All geometry is carried in integer milli-units so that
//! every computation is exact.

use vstd::prelude::*;

pub mod erosion;
pub mod geom;
pub mod poisson;
pub mod priority_index;
pub mod regions;
pub mod rng;
pub mod terrain_data;
pub mod terrain_features;
pub mod terrain_graph;
pub mod util;
pub mod voronoi;

use crate::geom::{in_bound, spec_dist_sq, spec_expand, Extent, Point};
use crate::poisson::poisson;
use crate::rng::Rng;
use crate::terrain_data::TerrainData;
use crate::terrain_features::TerrainFeatures;
use crate::terrain_graph::TerrainGraph;

verus! {

/// The caller-supplied generation parameters. Lengths are in milli-units:
/// one thousand steps per world unit.
#[derive(Debug, Clone, Copy)]
pub struct TerrainConfig {
    /// The domain width and height.
    pub size: (i64, i64),
    /// The seed of the pseudorandom stream.
    pub seed: u64,
    /// The target minimum separation between interior sample points.
    pub radius: i64,
    /// How many cities to place.
    pub num_cities: u32,
    /// How many regions to grow (region growth itself keys off the cities).
    pub num_regions: u32,
}

/// Why a configuration was rejected before generation began.
#[derive(Debug, Clone, Copy, PartialEq, Eq, Structural)]
pub enum ConfigError {
    /// The separation radius is too small or too large for the domain.
    BadRadius,
    /// The domain is empty or too large.
    BadDomain,
    /// The sampled points admitted no triangle (a collinear degenerate set).
    DegenerateTriangulation,
}

impl TerrainConfig {
    /// A configuration the pipeline accepts: a positive bounded domain and a
    /// positive radius no finer than the integer grid can track and no wider
    /// than the domain budget allows.
    pub open spec fn valid(self) -> bool {
        &&& 0 < self.size.0 <= 100_000_000
        &&& 0 < self.size.1 <= 100_000_000
        &&& 3 <= self.radius <= 100_000_000
        &&& self.size.0 <= 30_000 * self.radius
        &&& self.size.1 <= 30_000 * self.radius
    }

    /// Check the configuration, naming what is wrong with a bad one.
    pub fn validate(&self) -> (r: Result<(), ConfigError>)
        ensures
            r is Ok <==> self.valid(),
            r is Err ==> !self.valid(),
            (r matches Err(e) && e == ConfigError::BadDomain) ==> !(0 < self.size.0
                <= 100_000_000 && 0 < self.size.1 <= 100_000_000),
    {
        if !(0 < self.size.0 && self.size.0 <= 100_000_000 && 0 < self.size.1 && self.size.1
            <= 100_000_000) {
            return Err(ConfigError::BadDomain);
        }
        if !(3 <= self.radius && self.radius <= 100_000_000) {
            return Err(ConfigError::BadRadius);
        }
        proof {
            assert(30_000 * self.radius >= 90_000) by (nonlinear_arith)
                requires
                    self.radius >= 3,
            ;
        }
        if self.size.0 > 30_000 * self.radius || self.size.1 > 30_000 * self.radius {
            return Err(ConfigError::BadRadius);
        }
        Ok(())
    }
}

/// General-purpose state used for terrain generation that is derived from
/// the config.
#[derive(Debug, Clone, Copy, PartialEq, Eq, Structural)]
pub struct TerrainContext {
    /// The terrain extents in world coordinates.
    pub extent: Extent,
    /// The explicitly seeded stream used for terrain generation.
    pub rand: Rng,
}

/// A point on the edge of an extent.
pub open spec fn on_perimeter(e: Extent, p: Point) -> bool {
    e.spec_contains(p) && (p.x == e.x0 || p.x == e.x1 || p.y == e.y0 || p.y == e.y1)
}

/// The bottom and top edge points of a ring: two per step, with `n` even
/// intervals between `min_x` and `max_x`, the endpoints themselves left out.
pub open spec fn spec_ring_x(min_x: int, max_x: int, y0: int, y1: int, n: int) -> Seq<Point> {
    Seq::new(
        if n >= 1 {
            (2 * (n - 1)) as nat
        } else {
            0nat
        },
        |k: int|
            Point {
                x: (min_x + (k / 2 + 1) * (max_x - min_x) / n) as i64,
                y: if k % 2 == 0 {
                    y0 as i64
                } else {
                    y1 as i64
                },
            },
    )
}

/// The left and right edge points of a ring, spaced along the y axis.
pub open spec fn spec_ring_y(x0: int, x1: int, min_y: int, max_y: int, n: int) -> Seq<Point> {
    Seq::new(
        if n >= 1 {
            (2 * (n - 1)) as nat
        } else {
            0nat
        },
        |k: int|
            Point {
                x: if k % 2 == 0 {
                    x0 as i64
                } else {
                    x1 as i64
                },
                y: (min_y + (k / 2 + 1) * (max_y - min_y) / n) as i64,
            },
    )
}

/// The four corners of both expanded rings.
pub open spec fn spec_frame_corners(inner: Extent, outer: Extent) -> Seq<Point> {
    seq![
        Point { x: inner.x0, y: inner.y0 },
        Point { x: inner.x1, y: inner.y0 },
        Point { x: inner.x0, y: inner.y1 },
        Point { x: inner.x1, y: inner.y1 },
        Point { x: outer.x0, y: outer.y0 },
        Point { x: outer.x1, y: outer.y0 },
        Point { x: outer.x0, y: outer.y1 },
        Point { x: outer.x1, y: outer.y1 },
    ]
}

/// The whole boundary frame: corners of both rings, evenly spaced points
/// along the inner ring's edges, and one extra interval per axis on the
/// outer ring, offset by half a step so the triangles between the rings
/// stay symmetric. A pure function of the extent and the distance.
pub open spec fn spec_boundary_points(extent: Extent, distance: i64) -> Seq<Point> {
    let inner = spec_expand(extent, distance as int);
    let outer = spec_expand(extent, 2 * distance as int);
    let nx = (inner.x1 - inner.x0) as int / (distance as int) - 1;
    let ny = (inner.y1 - inner.y0) as int / (distance as int) - 1;
    let half = (distance as int) / 2;
    spec_frame_corners(inner, outer) + spec_ring_x(
        inner.x0 as int,
        inner.x1 as int,
        inner.y0 as int,
        inner.y1 as int,
        nx,
    ) + spec_ring_y(inner.x0 as int, inner.x1 as int, inner.y0 as int, inner.y1 as int, ny)
        + spec_ring_x(
        inner.x0 - half,
        inner.x1 + half,
        outer.y0 as int,
        outer.y1 as int,
        nx + 1,
    ) + spec_ring_y(outer.x0 as int, outer.x1 as int, inner.y0 - half, inner.y1 + half, ny + 1)
}

/// Generate the two structured boundary rings around the extent: exactly the
/// frame that `spec_boundary_points` lays out, every point of it on the
/// perimeter of the once- or twice-expanded extent and none inside the
/// domain itself.
pub fn generate_boundary_points(extent: Extent, distance: i64) -> (r: Vec<Point>)
    requires
        extent.wf(),
        extent.x0 == 0 && extent.y0 == 0,
        0 < extent.x1 <= 100_000_000 && 0 < extent.y1 <= 100_000_000,
        3 <= distance <= 100_000_000,
    ensures
        r@ == spec_boundary_points(extent, distance),
        r@.len() >= 8,
        forall|i: int| 0 <= i < r@.len() ==> in_bound(#[trigger] r@[i]),
        forall|i: int|
            0 <= i < r@.len() ==> on_perimeter(spec_expand(extent, distance as int), #[trigger] r@[i])
                || on_perimeter(spec_expand(extent, 2 * distance as int), r@[i]),
        forall|i: int| 0 <= i < r@.len() ==> !extent.spec_contains(#[trigger] r@[i]),
{
    let inner = crate::geom::expand_rect(extent, distance);
    let outer = crate::geom::expand_rect(extent, 2 * distance);
    let ghost gin = spec_expand(extent, distance as int);
    let ghost gout = spec_expand(extent, 2 * distance as int);

    let mut points: Vec<Point> = Vec::new();

    // Corners of both rings.
    points.push(Point { x: inner.x0, y: inner.y0 });
    points.push(Point { x: inner.x1, y: inner.y0 });
    points.push(Point { x: inner.x0, y: inner.y1 });
    points.push(Point { x: inner.x1, y: inner.y1 });
    points.push(Point { x: outer.x0, y: outer.y0 });
    points.push(Point { x: outer.x1, y: outer.y0 });
    points.push(Point { x: outer.x0, y: outer.y1 });
    points.push(Point { x: outer.x1, y: outer.y1 });
    proof {
        assert(points@ =~= spec_frame_corners(gin, gout));
    }

    let min_x = inner.x0;
    let max_x = inner.x1;
    let min_y = inner.y0;
    let max_y = inner.y1;
    let inner_w = max_x - min_x;
    let inner_h = max_y - min_y;

    let nx = inner_w / distance - 1;
    let ny = inner_h / distance - 1;
    proof {
        vstd::arithmetic::div_mod::lemma_div_pos_is_pos(inner_w as int, distance as int);
        vstd::arithmetic::div_mod::lemma_div_is_ordered_by_denominator(inner_w as int, 3,
            distance as int);
        vstd::arithmetic::div_mod::lemma_div_is_ordered(inner_w as int, 300_000_000, 3);
        vstd::arithmetic::div_mod::lemma_div_pos_is_pos(inner_h as int, distance as int);
        vstd::arithmetic::div_mod::lemma_div_is_ordered_by_denominator(inner_h as int, 3,
            distance as int);
        vstd::arithmetic::div_mod::lemma_div_is_ordered(inner_h as int, 300_000_000, 3);
        // Both rings have at least one interval.
        vstd::arithmetic::div_mod::lemma_div_by_self(distance as int);
        vstd::arithmetic::div_mod::lemma_div_is_ordered(distance as int, inner_w as int,
            distance as int);
        vstd::arithmetic::div_mod::lemma_div_is_ordered(distance as int, inner_h as int,
            distance as int);
        assert(nx >= 0 && ny >= 0);
    }
    let ghost ring1 = spec_ring_x(min_x as int, max_x as int, min_y as int, max_y as int,
        nx as int);
    let ghost ring2 = spec_ring_y(min_x as int, max_x as int, min_y as int, max_y as int,
        ny as int);

    // Inner ring edge points.
    let mut i: i64 = 1;
    while i < nx
        invariant
            1 <= i,
            i <= nx || i == 1,
            nx <= 100_000_000,
            gin == spec_expand(extent, distance as int),
            gout == spec_expand(extent, 2 * distance as int),
            min_x == gin.x0 && max_x == gin.x1 && min_y == gin.y0 && max_y == gin.y1,
            min_x == -distance && max_x == extent.x1 + distance,
            min_y == -distance && max_y == extent.y1 + distance,
            3 <= distance <= 100_000_000,
            extent.x0 == 0 && extent.y0 == 0,
            0 < extent.x1 <= 100_000_000 && 0 < extent.y1 <= 100_000_000,
            ring1 == spec_ring_x(min_x as int, max_x as int, min_y as int, max_y as int,
                nx as int),
            nx >= 1 ==> points@ =~= spec_frame_corners(gin, gout) + ring1.take(2 * (i - 1)),
            nx < 1 ==> points@ =~= spec_frame_corners(gin, gout),
            forall|q: int|
                0 <= q < points@.len() ==> in_bound(#[trigger] points@[q]) && (on_perimeter(
                    gin,
                    points@[q],
                ) || on_perimeter(gout, points@[q])) && !extent.spec_contains(points@[q]),
        decreases nx - i,
    {
        let x = lerp_index(i, nx, min_x, max_x);
        points.push(Point { x, y: min_y });
        points.push(Point { x, y: max_y });
        proof {
            vstd::arithmetic::div_mod::lemma_div_multiples_vanish((i - 1) as int, 2);
            vstd::arithmetic::div_mod::lemma_fundamental_div_mod_converse(
                2 * (i - 1) + 1,
                2,
                (i - 1) as int,
                1,
            );
            assert(ring1[2 * (i - 1)] == (Point { x, y: min_y }));
            assert(ring1[2 * (i - 1) + 1] == (Point { x, y: max_y }));
            assert(points@ =~= spec_frame_corners(gin, gout) + ring1.take(2 * i));
        }
        i = i + 1;
    }
    proof {
        assert(ring1.take(ring1.len() as int) =~= ring1);
        if nx < 1 {
            assert(ring1 =~= Seq::<Point>::empty());
        }
        assert(points@ =~= spec_frame_corners(gin, gout) + ring1);
    }
    let mut i: i64 = 1;
    while i < ny
        invariant
            1 <= i,
            i <= ny || i == 1,
            ny <= 100_000_000,
            gin == spec_expand(extent, distance as int),
            gout == spec_expand(extent, 2 * distance as int),
            min_x == gin.x0 && max_x == gin.x1 && min_y == gin.y0 && max_y == gin.y1,
            min_x == -distance && max_x == extent.x1 + distance,
            min_y == -distance && max_y == extent.y1 + distance,
            3 <= distance <= 100_000_000,
            extent.x0 == 0 && extent.y0 == 0,
            0 < extent.x1 <= 100_000_000 && 0 < extent.y1 <= 100_000_000,
            ring1 == spec_ring_x(min_x as int, max_x as int, min_y as int, max_y as int,
                nx as int),
            ring2 == spec_ring_y(min_x as int, max_x as int, min_y as int, max_y as int,
                ny as int),
            ny >= 1 ==> points@ =~= spec_frame_corners(gin, gout) + ring1 + ring2.take(2 * (i
                - 1)),
            ny < 1 ==> points@ =~= spec_frame_corners(gin, gout) + ring1,
            forall|q: int|
                0 <= q < points@.len() ==> in_bound(#[trigger] points@[q]) && (on_perimeter(
                    gin,
                    points@[q],
                ) || on_perimeter(gout, points@[q])) && !extent.spec_contains(points@[q]),
        decreases ny - i,
    {
        let y = lerp_index(i, ny, min_y, max_y);
        points.push(Point { x: min_x, y });
        points.push(Point { x: max_x, y });
        proof {
            vstd::arithmetic::div_mod::lemma_div_multiples_vanish((i - 1) as int, 2);
            vstd::arithmetic::div_mod::lemma_fundamental_div_mod_converse(
                2 * (i - 1) + 1,
                2,
                (i - 1) as int,
                1,
            );
            assert(ring2[2 * (i - 1)] == (Point { x: min_x, y }));
            assert(ring2[2 * (i - 1) + 1] == (Point { x: max_x, y }));
            assert(points@ =~= spec_frame_corners(gin, gout) + ring1 + ring2.take(2 * i));
        }
        i = i + 1;
    }
    proof {
        assert(ring2.take(ring2.len() as int) =~= ring2);
        if ny < 1 {
            assert(ring2 =~= Seq::<Point>::empty());
        }
        assert(points@ =~= spec_frame_corners(gin, gout) + ring1 + ring2);
    }

    // Outer ring edge points: one more per side, offset half a step, so the
    // triangles between the rings stay symmetric.
    let nx2 = nx + 1;
    let ny2 = ny + 1;
    let half = distance / 2;
    proof {
        vstd::arithmetic::div_mod::lemma_div_pos_is_pos(distance as int, 2);
        vstd::arithmetic::div_mod::lemma_div_is_ordered(distance as int, 100_000_000, 2);
    }
    let ghost ring3 = spec_ring_x((min_x - half) as int, (max_x + half) as int, gout.y0 as int,
        gout.y1 as int, nx2 as int);
    let ghost ring4 = spec_ring_y(gout.x0 as int, gout.x1 as int, (min_y - half) as int, (max_y
        + half) as int, ny2 as int);
    let mut i: i64 = 1;
    while i < nx2
        invariant
            1 <= i <= nx2,
            1 <= nx2 <= 100_000_001,
            gin == spec_expand(extent, distance as int),
            gout == spec_expand(extent, 2 * distance as int),
            min_x == gin.x0 && max_x == gin.x1 && min_y == gin.y0 && max_y == gin.y1,
            min_x == -distance && max_x == extent.x1 + distance,
            min_y == -distance && max_y == extent.y1 + distance,
            3 <= distance <= 100_000_000,
            half == distance / 2,
            0 <= half <= 50_000_000,
            extent.x0 == 0 && extent.y0 == 0,
            0 < extent.x1 <= 100_000_000 && 0 < extent.y1 <= 100_000_000,
            ring3 == spec_ring_x((min_x - half) as int, (max_x + half) as int, gout.y0 as int,
                gout.y1 as int, nx2 as int),
            points@ =~= spec_frame_corners(gin, gout) + ring1 + ring2 + ring3.take(2 * (i - 1)),
            forall|q: int|
                0 <= q < points@.len() ==> in_bound(#[trigger] points@[q]) && (on_perimeter(
                    gin,
                    points@[q],
                ) || on_perimeter(gout, points@[q])) && !extent.spec_contains(points@[q]),
        decreases nx2 - i,
    {
        let x = lerp_index(i, nx2, min_x - half, max_x + half);
        points.push(Point { x, y: min_y - distance });
        points.push(Point { x, y: max_y + distance });
        proof {
            vstd::arithmetic::div_mod::lemma_div_multiples_vanish((i - 1) as int, 2);
            vstd::arithmetic::div_mod::lemma_fundamental_div_mod_converse(
                2 * (i - 1) + 1,
                2,
                (i - 1) as int,
                1,
            );
            assert(ring3[2 * (i - 1)] == (Point { x, y: (min_y - distance) as i64 }));
            assert(ring3[2 * (i - 1) + 1] == (Point { x, y: (max_y + distance) as i64 }));
            assert(points@ =~= spec_frame_corners(gin, gout) + ring1 + ring2 + ring3.take(2 * i));
            assert(gout.x0 <= x <= gout.x1);
        }
        i = i + 1;
    }
    proof {
        assert(ring3.take(ring3.len() as int) =~= ring3);
        assert(points@ =~= spec_frame_corners(gin, gout) + ring1 + ring2 + ring3);
    }
    let mut i: i64 = 1;
    while i < ny2
        invariant
            1 <= i <= ny2,
            1 <= ny2 <= 100_000_001,
            gin == spec_expand(extent, distance as int),
            gout == spec_expand(extent, 2 * distance as int),
            min_x == gin.x0 && max_x == gin.x1 && min_y == gin.y0 && max_y == gin.y1,
            min_x == -distance && max_x == extent.x1 + distance,
            min_y == -distance && max_y == extent.y1 + distance,
            3 <= distance <= 100_000_000,
            half == distance / 2,
            0 <= half <= 50_000_000,
            extent.x0 == 0 && extent.y0 == 0,
            0 < extent.x1 <= 100_000_000 && 0 < extent.y1 <= 100_000_000,
            ring4 == spec_ring_y(gout.x0 as int, gout.x1 as int, (min_y - half) as int, (max_y
                + half) as int, ny2 as int),
            points@ =~= spec_frame_corners(gin, gout) + ring1 + ring2 + ring3 + ring4.take(2 * (i
                - 1)),
            forall|q: int|
                0 <= q < points@.len() ==> in_bound(#[trigger] points@[q]) && (on_perimeter(
                    gin,
                    points@[q],
                ) || on_perimeter(gout, points@[q])) && !extent.spec_contains(points@[q]),
        decreases ny2 - i,
    {
        let y = lerp_index(i, ny2, min_y - half, max_y + half);
        points.push(Point { x: min_x - distance, y });
        points.push(Point { x: max_x + distance, y });
        proof {
            vstd::arithmetic::div_mod::lemma_div_multiples_vanish((i - 1) as int, 2);
            vstd::arithmetic::div_mod::lemma_fundamental_div_mod_converse(
                2 * (i - 1) + 1,
                2,
                (i - 1) as int,
                1,
            );
            assert(ring4[2 * (i - 1)] == (Point { x: (min_x - distance) as i64, y }));
            assert(ring4[2 * (i - 1) + 1] == (Point { x: (max_x + distance) as i64, y }));
            assert(points@ =~= spec_frame_corners(gin, gout) + ring1 + ring2 + ring3 + ring4.take(
                2 * i,
            ));
            assert(gout.y0 <= y <= gout.y1);
        }
        i = i + 1;
    }
    proof {
        assert(ring4.take(ring4.len() as int) =~= ring4);
        assert(points@ =~= spec_boundary_points(extent, distance));
    }

    points
}

/// The `i`-th of `n` even steps from `min` to `max`.
fn lerp_index(i: i64, n: i64, min: i64, max: i64) -> (r: i64)
    requires
        0 < i < n <= 200_000_000,
        -400_000_000 <= min <= max <= 400_000_000,
    ensures
        min <= r <= max,
        r == min + (i as int) * ((max - min) as int) / (n as int),
{
    proof {
        assert(0 <= (i as int) * ((max - min) as int) <= (n as int) * ((max - min) as int))
            by (nonlinear_arith)
            requires
                0 <= i as int <= n as int,
                (max - min) as int >= 0,
        ;
        assert((n as int) * ((max - min) as int) <= 200_000_000 * 800_000_000)
            by (nonlinear_arith)
            requires
                0 <= n as int <= 200_000_000,
                0 <= (max - min) as int <= 800_000_000,
        ;
        assert(0 <= (i as int) * ((max - min) as int) / (n as int) <= (max - min) as int)
            by (nonlinear_arith)
            requires
                n as int > 0,
                0 <= (i as int) * ((max - min) as int) <= (n as int) * ((max - min) as int),
        ;
    }
    let num = (i as i128) * ((max - min) as i128);
    min + (num / (n as i128)) as i64
}

/// Fill the extent with randomly sampled points, roughly separated by
/// `radius` distance, then append the structured boundary frame. Returns the
/// points and how many of them are interior samples; the interior samples
/// keep the pairwise separation.
pub fn generate_points(rand: &mut Rng, extent: Extent, radius: i64) -> (r: (Vec<Point>, usize))
    requires
        extent.wf(),
        extent.x0 == 0 && extent.y0 == 0,
        0 < extent.x1 <= 100_000_000 && 0 < extent.y1 <= 100_000_000,
        3 <= radius <= 100_000_000,
        extent.x1 <= 30_000 * radius,
        extent.y1 <= 30_000 * radius,
    ensures
        1 <= r.1 <= r.0@.len(),
        forall|i: int| 0 <= i < r.0@.len() ==> in_bound(#[trigger] r.0@[i]),
        // The interior prefix satisfies the Poisson separation property.
        forall|i: int, j: int|
            0 <= i < r.1 && 0 <= j < r.1 && i != j ==> spec_dist_sq(
                #[trigger] r.0@[i],
                #[trigger] r.0@[j],
            ) >= radius * radius,
        forall|i: int| 0 <= i < r.1 ==> extent.spec_contains(#[trigger] r.0@[i]),
        // The boundary lattice is appended after the interior samples, its
        // order fixed by the frame layout.
        r.0@.len() == r.1 + spec_boundary_points(extent, radius).len(),
        r.0@.subrange(r.1 as int, r.0@.len() as int) == spec_boundary_points(extent, radius),
        forall|i: int|
            r.1 <= i < r.0@.len() ==> on_perimeter(
                spec_expand(extent, radius as int),
                #[trigger] r.0@[i],
            ) || on_perimeter(spec_expand(extent, 2 * radius as int), r.0@[i]),
        forall|i: int| r.1 <= i < r.0@.len() ==> !extent.spec_contains(#[trigger] r.0@[i]),
{
    let mut points = poisson(rand, extent, radius);
    let n_interior = points.len();
    let ghost interior = points@;

    let mut boundary = generate_boundary_points(extent, radius);
    let ghost bpts = boundary@;
    points.append(&mut boundary);
    proof {
        assert(points@ == interior + bpts);
        assert(forall|i: int| 0 <= i < n_interior ==> points@[i] == interior[i]);
        assert(forall|i: int|
            n_interior <= i < points@.len() ==> points@[i] == bpts[i - n_interior]);
        assert(points@.subrange(n_interior as int, points@.len() as int) =~= bpts);
    }
    (points, n_interior)
}

/// A fully generated terrain: the dual graph and the frozen hydrology state,
/// together with the configuration and features that produced them.
#[derive(Debug, Clone)]
pub struct Terrain {
    pub config: TerrainConfig,
    /// Extent of generated terrain points.
    pub extent: Extent,
    /// The graph structures for navigating the terrain in various ways.
    pub graph: TerrainGraph,
    pub data: TerrainData,
    pub features: TerrainFeatures,
}

impl Terrain {
    pub open spec fn wf(self) -> bool {
        &&& self.graph.wf()
        &&& self.data.wf(self.graph)
        &&& 1 <= self.graph.nv() < 0x2000_0000
        &&& self.extent.x0 == 0 && self.extent.y0 == 0
        &&& self.extent.x1 == self.config.size.0 && self.extent.y1 == self.config.size.1
        &&& self.config.valid()
    }
}

/// Run the whole generation pipeline for a configuration: sample points,
/// build the dual graph, draw the features, and bake the hydrology state. A
/// bad configuration is rejected up front; a degenerate point set (one that
/// admits no triangle) is reported rather than processed.
pub fn generate_terrain(config: TerrainConfig) -> (r: Result<Terrain, ConfigError>)
    ensures
        !config.valid() ==> r is Err,
        r matches Ok(t) ==> t.wf() && t.config == config,
{
    match config.validate() {
        Err(e) => {
            return Err(e);
        },
        Ok(()) => {
        },
    }

    let mut rand = Rng::seed_from_u64(config.seed);
    let extent = Extent::from_wh(config.size.0, config.size.1);
    let (points, _n_interior) = generate_points(&mut rand, extent, config.radius);

    let mut context = TerrainContext { extent, rand };
    let features = TerrainFeatures::generate(&mut context);

    let graph = TerrainGraph::new(&points);
    if graph.vertices.len() == 0 || graph.vertices.len() as u64 >= 0x2000_0000u64 {
        return Err(ConfigError::DegenerateTriangulation);
    }

    let data = TerrainData::new(&graph, &features);

    Ok(Terrain { config, extent, graph, data, features })
}

} // verus!
