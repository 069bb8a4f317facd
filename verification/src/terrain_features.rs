use vstd::prelude::*;

use crate::geom::{Extent, Point};
use crate::rng::{random_dir, random_point_in_rect, spec_dir32, spec_mix, spec_next_state};
use crate::TerrainContext;

verus! {

/// A linear ramp: elevation rises along `direction` from `origin` over
/// `length`, up to `height`.
#[derive(Debug, Clone, Copy, PartialEq, Eq, Structural)]
pub struct Slope {
    pub origin: Point,
    pub direction: Point,
    pub length: i64,
    pub height: i64,
}

/// A radial mound: elevation rises toward `center` within `radius`, up to
/// `height`, eased by the integer `steepness` exponent (one is linear).
#[derive(Debug, Clone, Copy, PartialEq, Eq, Structural)]
pub struct Cone {
    pub center: Point,
    pub radius: i64,
    pub height: i64,
    pub steepness: i64,
}

/// The randomized bag of elevation primitives, plus the conditioning
/// choices, all drawn from the seeded stream in a fixed call order.
#[derive(Debug, Clone)]
pub struct TerrainFeatures {
    pub slopes: Vec<Slope>,
    pub cones: Vec<Cone>,
    pub smooth: bool,
    pub relax: bool,
    pub erode: bool,
}

/// The generator state after `k` draws.
pub open spec fn rng_after(s: u64, k: nat) -> u64
    decreases k,
{
    if k == 0 {
        s
    } else {
        spec_next_state(rng_after(s, (k - 1) as nat))
    }
}

pub proof fn lemma_rng_step(s: u64, k: nat)
    ensures
        rng_after(s, (k + 1) as nat) == spec_next_state(rng_after(s, k)),
        rng_after(s, 0) == s,
{
}

/// The value of the `k`-th draw (one-based) from state `s`.
pub open spec fn draw(s: u64, k: nat) -> u64 {
    spec_mix(rng_after(s, k))
}

/// How many ordinary cones the stream yields.
pub open spec fn spec_cone_count(s: u64) -> int {
    100 + draw(s, 1) % 150
}

/// The domain expanded by a tenth on each side, over which cones scatter.
pub open spec fn spec_expanded(extent: Extent) -> Extent {
    Extent {
        x0: (extent.x0 - (extent.x1 - extent.x0) / 10) as i64,
        y0: (extent.y0 - (extent.y1 - extent.y0) / 10) as i64,
        x1: (extent.x1 + (extent.x1 - extent.x0) / 10) as i64,
        y1: (extent.y1 + (extent.y1 - extent.y0) / 10) as i64,
    }
}

/// The central half-size sub-domain, from which a slope may originate.
pub open spec fn spec_smaller(extent: Extent) -> Extent {
    Extent {
        x0: (extent.x0 + (extent.x1 - extent.x0) / 4) as i64,
        y0: (extent.y0 + (extent.y1 - extent.y0) / 4) as i64,
        x1: (extent.x1 - (extent.x1 - extent.x0) / 4) as i64,
        y1: (extent.y1 - (extent.y1 - extent.y0) / 4) as i64,
    }
}

/// The `j`-th ordinary cone: six draws starting after the count draw.
pub open spec fn spec_cone(s: u64, extent: Extent, j: int) -> Cone {
    let e = spec_expanded(extent);
    let base = (1 + 6 * j) as nat;
    let steep = draw(s, (base + 1) as nat) % 100 < 20;
    let steepness: i64 = if steep {
        (2 + draw(s, (base + 2) as nat) % 5) as i64
    } else {
        (1 + draw(s, (base + 2) as nat) % 1) as i64
    };
    Cone {
        center: Point {
            x: (e.x0 + draw(s, (base + 3) as nat) % ((e.x1 - e.x0 + 1) as u64)) as i64,
            y: (e.y0 + draw(s, (base + 4) as nat) % ((e.y1 - e.y0 + 1) as u64)) as i64,
        },
        radius: (50_000 + draw(s, (base + 5) as nat) % 350_001) as i64,
        height: (25_000 + draw(s, (base + 6) as nat) % 50_001) as i64,
        steepness,
    }
}

/// Whether the stream grants the one huge cone, decided right after the
/// ordinary cones.
pub open spec fn spec_has_huge(s: u64) -> bool {
    draw(s, (2 + 6 * spec_cone_count(s)) as nat) % 100 < 50
}

/// The huge cone's fields: four draws after its flag, with linear easing.
pub open spec fn spec_huge_cone(s: u64, extent: Extent) -> Cone {
    let e = spec_expanded(extent);
    let base = (2 + 6 * spec_cone_count(s)) as nat;
    Cone {
        center: Point {
            x: (e.x0 + draw(s, (base + 1) as nat) % ((e.x1 - e.x0 + 1) as u64)) as i64,
            y: (e.y0 + draw(s, (base + 2) as nat) % ((e.y1 - e.y0 + 1) as u64)) as i64,
        },
        radius: (300_000 + draw(s, (base + 3) as nat) % 300_001) as i64,
        height: (50_000 + draw(s, (base + 4) as nat) % 100_001) as i64,
        steepness: 1,
    }
}

/// How many draws the cone section consumes (count, cones, huge flag and
/// possibly the huge cone).
pub open spec fn spec_after_huge(s: u64) -> nat {
    (2 + 6 * spec_cone_count(s) + if spec_has_huge(s) {
        4int
    } else {
        0int
    }) as nat
}

/// Whether the stream grants the one huge slope.
pub open spec fn spec_has_slope(s: u64) -> bool {
    draw(s, (spec_after_huge(s) + 1) as nat) % 100 < 10
}

/// The huge slope's fields: five draws after its flag.
pub open spec fn spec_slope(s: u64, extent: Extent) -> Slope {
    let e = spec_smaller(extent);
    let base = (spec_after_huge(s) + 1) as nat;
    Slope {
        origin: Point {
            x: (e.x0 + draw(s, (base + 1) as nat) % ((e.x1 - e.x0 + 1) as u64)) as i64,
            y: (e.y0 + draw(s, (base + 2) as nat) % ((e.y1 - e.y0 + 1) as u64)) as i64,
        },
        direction: spec_dir32(draw(s, (base + 3) as nat) as int),
        length: (100_000 + draw(s, (base + 4) as nat) % 200_001) as i64,
        height: (100_000 + draw(s, (base + 5) as nat) % 200_001) as i64,
    }
}

/// How many draws the feature sections before the conditioning flags
/// consume.
pub open spec fn spec_after_slope(s: u64) -> nat {
    (spec_after_huge(s) + 1 + if spec_has_slope(s) {
        5int
    } else {
        0int
    }) as nat
}

pub open spec fn spec_smooth_flag(s: u64) -> bool {
    draw(s, (spec_after_slope(s) + 1) as nat) % 100 < 50
}

pub open spec fn spec_relax_flag(s: u64) -> bool {
    draw(s, (spec_after_slope(s) + 2) as nat) % 100 < 50
}

/// How many draws one whole feature generation consumes.
pub open spec fn spec_feature_draws(s: u64) -> nat {
    (spec_after_slope(s) + 2) as nat
}

impl TerrainFeatures {
    /// Generate random terrain features: every draw comes from the single
    /// seeded stream in a fixed call order, so the whole feature set and the
    /// stream state left behind are functions of the starting state and the
    /// extent.
    #[verifier::rlimit(100)]
    pub fn generate(context: &mut TerrainContext) -> (r: TerrainFeatures)
    requires
        old(context).extent.x0 == 0,
        old(context).extent.y0 == 0,
        0 < old(context).extent.x1 <= 100_000_000,
        0 < old(context).extent.y1 <= 100_000_000,
    ensures
        final(context).extent == old(context).extent,
        final(context).rand.state == rng_after(
            old(context).rand.state,
            spec_feature_draws(old(context).rand.state),
        ),
        100 <= spec_cone_count(old(context).rand.state) <= 249,
        r.cones@.len() == spec_cone_count(old(context).rand.state) + (if spec_has_huge(
            old(context).rand.state,
        ) {
            1int
        } else {
            0int
        }),
        100 <= r.cones@.len() <= 250,
        forall|j: int|
            0 <= j < spec_cone_count(old(context).rand.state) ==> #[trigger] r.cones@[j]
                == spec_cone(old(context).rand.state, old(context).extent, j),
        spec_has_huge(old(context).rand.state) ==> r.cones@[spec_cone_count(
            old(context).rand.state,
        )] == spec_huge_cone(old(context).rand.state, old(context).extent),
        r.slopes@.len() == (if spec_has_slope(old(context).rand.state) {
            1int
        } else {
            0int
        }),
        spec_has_slope(old(context).rand.state) ==> r.slopes@[0] == spec_slope(
            old(context).rand.state,
            old(context).extent,
        ),
        r.smooth == spec_smooth_flag(old(context).rand.state),
        r.relax == spec_relax_flag(old(context).rand.state),
        r.erode == true,
        forall|j: int|
            0 <= j < r.cones@.len() ==> {
                let c = #[trigger] r.cones@[j];
                &&& 50_000 <= c.radius <= 600_000
                &&& 25_000 <= c.height <= 150_000
                &&& 1 <= c.steepness <= 6
                &&& -200_000_000 <= c.center.x <= 200_000_000
                &&& -200_000_000 <= c.center.y <= 200_000_000
            },
        forall|j: int|
            0 <= j < r.slopes@.len() ==> {
                let sl = #[trigger] r.slopes@[j];
                &&& 100_000 <= sl.length <= 300_000
                &&& 100_000 <= sl.height <= 300_000
                &&& -1000 <= sl.direction.x <= 1000 && -1000 <= sl.direction.y <= 1000
                &&& -200_000_000 <= sl.origin.x <= 200_000_000 && -200_000_000 <= sl.origin.y
                    <= 200_000_000
            },
{
        generate_features(context)
    }
}

#[verifier::rlimit(100)]
#[verifier::spinoff_prover]
fn generate_features(context: &mut TerrainContext) -> (r: TerrainFeatures)
    requires
        old(context).extent.x0 == 0,
        old(context).extent.y0 == 0,
        0 < old(context).extent.x1 <= 100_000_000,
        0 < old(context).extent.y1 <= 100_000_000,
    ensures
        final(context).extent == old(context).extent,
        final(context).rand.state == rng_after(
            old(context).rand.state,
            spec_feature_draws(old(context).rand.state),
        ),
        100 <= spec_cone_count(old(context).rand.state) <= 249,
        r.cones@.len() == spec_cone_count(old(context).rand.state) + (if spec_has_huge(
            old(context).rand.state,
        ) {
            1int
        } else {
            0int
        }),
        100 <= r.cones@.len() <= 250,
        forall|j: int|
            0 <= j < spec_cone_count(old(context).rand.state) ==> #[trigger] r.cones@[j]
                == spec_cone(old(context).rand.state, old(context).extent, j),
        spec_has_huge(old(context).rand.state) ==> r.cones@[spec_cone_count(
            old(context).rand.state,
        )] == spec_huge_cone(old(context).rand.state, old(context).extent),
        r.slopes@.len() == (if spec_has_slope(old(context).rand.state) {
            1int
        } else {
            0int
        }),
        spec_has_slope(old(context).rand.state) ==> r.slopes@[0] == spec_slope(
            old(context).rand.state,
            old(context).extent,
        ),
        r.smooth == spec_smooth_flag(old(context).rand.state),
        r.relax == spec_relax_flag(old(context).rand.state),
        r.erode == true,
        forall|j: int|
            0 <= j < r.cones@.len() ==> {
                let c = #[trigger] r.cones@[j];
                &&& 50_000 <= c.radius <= 600_000
                &&& 25_000 <= c.height <= 150_000
                &&& 1 <= c.steepness <= 6
                &&& -200_000_000 <= c.center.x <= 200_000_000
                &&& -200_000_000 <= c.center.y <= 200_000_000
            },
        forall|j: int|
            0 <= j < r.slopes@.len() ==> {
                let sl = #[trigger] r.slopes@[j];
                &&& 100_000 <= sl.length <= 300_000
                &&& 100_000 <= sl.height <= 300_000
                &&& -1000 <= sl.direction.x <= 1000 && -1000 <= sl.direction.y <= 1000
                &&& -200_000_000 <= sl.origin.x <= 200_000_000 && -200_000_000 <= sl.origin.y
                    <= 200_000_000
            },
{
    let ghost s0 = old(context).rand.state;
    let extent = context.extent;
    let w = extent.x1 - extent.x0;
    let h = extent.y1 - extent.y0;
    let expanded_extent = Extent {
        x0: extent.x0 - w / 10,
        y0: extent.y0 - h / 10,
        x1: extent.x1 + w / 10,
        y1: extent.y1 + h / 10,
    };
    let smaller_extent = Extent {
        x0: extent.x0 + w / 4,
        y0: extent.y0 + h / 4,
        x1: extent.x1 - w / 4,
        y1: extent.y1 - h / 4,
    };
    proof {
        assert(expanded_extent == spec_expanded(extent));
        assert(smaller_extent == spec_smaller(extent));
        vstd::arithmetic::div_mod::lemma_div_pos_is_pos(w as int, 10);
        vstd::arithmetic::div_mod::lemma_div_is_ordered(w as int, 100_000_000, 10);
        vstd::arithmetic::div_mod::lemma_div_pos_is_pos(h as int, 10);
        vstd::arithmetic::div_mod::lemma_div_is_ordered(h as int, 100_000_000, 10);
        vstd::arithmetic::div_mod::lemma_div_pos_is_pos(w as int, 4);
        vstd::arithmetic::div_mod::lemma_div_is_ordered(w as int, 100_000_000, 4);
        vstd::arithmetic::div_mod::lemma_fundamental_div_mod(w as int, 4);
        vstd::arithmetic::div_mod::lemma_div_pos_is_pos(h as int, 4);
        vstd::arithmetic::div_mod::lemma_div_is_ordered(h as int, 100_000_000, 4);
        vstd::arithmetic::div_mod::lemma_fundamental_div_mod(h as int, 4);
        assert(expanded_extent.wf());
        assert(smaller_extent.wf());
    }

    let mut slopes: Vec<Slope> = Vec::new();
    let mut cones: Vec<Cone> = Vec::new();

    // Lots of ordinary cones.
    let n = context.rand.gen_range_i64(100, 250);
    proof {
        lemma_rng_step(s0, 0);
        assert(context.rand.state == rng_after(s0, 1));
        assert(n == spec_cone_count(s0));
    }
    let count = n as usize;
    let mut j: usize = 0;
    while j < count
        invariant
            j <= count,
            count == spec_cone_count(s0),
            extent == old(context).extent,
            context.extent == extent,
            extent.x0 == 0 && extent.y0 == 0,
            0 < extent.x1 <= 100_000_000 && 0 < extent.y1 <= 100_000_000,
            expanded_extent == spec_expanded(extent),
            expanded_extent.wf(),
            -100_000_000 <= expanded_extent.x0 && expanded_extent.x1 <= 200_000_000,
            -100_000_000 <= expanded_extent.y0 && expanded_extent.y1 <= 200_000_000,
            context.rand.state == rng_after(s0, (1 + 6 * j) as nat),
            cones@.len() == j,
            forall|q: int|
                0 <= q < j ==> #[trigger] cones@[q] == spec_cone(s0, extent, q),
            forall|q: int|
                0 <= q < cones@.len() ==> {
                    let c = #[trigger] cones@[q];
                    &&& 50_000 <= c.radius <= 600_000
                    &&& 25_000 <= c.height <= 150_000
                    &&& 1 <= c.steepness <= 6
                    &&& -200_000_000 <= c.center.x <= 200_000_000
                    &&& -200_000_000 <= c.center.y <= 200_000_000
                },
        decreases count - j,
    {
        let ghost base: nat = (1 + 6 * j) as nat;
        let steep = context.rand.gen_bool_percent(20);
        proof {
            lemma_rng_step(s0, base);
            assert(context.rand.state == rng_after(s0, (base + 1) as nat));
        }
        let steepness: i64 = if steep {
            context.rand.gen_range_i64(2, 7)
        } else {
            context.rand.gen_range_i64(1, 2)
        };
        proof {
            lemma_rng_step(s0, (base + 1) as nat);
            assert(context.rand.state == rng_after(s0, (base + 2) as nat));
        }
        let center = random_point_in_rect(&mut context.rand, expanded_extent);
        proof {
            lemma_rng_step(s0, (base + 2) as nat);
            lemma_rng_step(s0, (base + 3) as nat);
            assert(context.rand.state == rng_after(s0, (base + 4) as nat));
        }
        let radius = context.rand.gen_range_i64(50_000, 400_001);
        let height = context.rand.gen_range_i64(25_000, 75_001);
        proof {
            lemma_rng_step(s0, (base + 4) as nat);
            lemma_rng_step(s0, (base + 5) as nat);
            assert(context.rand.state == rng_after(s0, (base + 6) as nat));
        }
        let cone = Cone { center, radius, height, steepness };
        proof {
            assert(cone == spec_cone(s0, extent, j as int));
        }
        cones.push(cone);
        j = j + 1;
        proof {
            assert((1 + 6 * (j - 1) + 6) as nat == (1 + 6 * j) as nat);
        }
    }

    // Maybe one huge cone.
    let huge = context.rand.gen_bool_percent(50);
    let ghost after_cones: nat = (2 + 6 * count) as nat;
    proof {
        lemma_rng_step(s0, (1 + 6 * count) as nat);
        assert(context.rand.state == rng_after(s0, after_cones));
        assert(huge == (draw(s0, after_cones) % 100 < 50));
        assert(huge == spec_has_huge(s0));
    }
    if huge {
        let center = random_point_in_rect(&mut context.rand, expanded_extent);
        proof {
            lemma_rng_step(s0, after_cones);
            lemma_rng_step(s0, (after_cones + 1) as nat);
            assert(context.rand.state == rng_after(s0, (after_cones + 2) as nat));
        }
        let radius = context.rand.gen_range_i64(300_000, 600_001);
        let height = context.rand.gen_range_i64(50_000, 150_001);
        proof {
            lemma_rng_step(s0, (after_cones + 2) as nat);
            lemma_rng_step(s0, (after_cones + 3) as nat);
            assert(context.rand.state == rng_after(s0, (after_cones + 4) as nat));
        }
        let steepness = 1i64;
        let c = Cone { center, radius, height, steepness };
        proof {
            assert(c == spec_huge_cone(s0, extent));
        }
        cones.push(c);
    }
    let ghost after_huge: nat = spec_after_huge(s0);
    proof {
        assert(context.rand.state == rng_after(s0, after_huge));
    }

    // Maybe one huge slope.
    let slope_flag = context.rand.gen_bool_percent(10);
    proof {
        lemma_rng_step(s0, after_huge);
        assert(context.rand.state == rng_after(s0, (after_huge + 1) as nat));
        assert(slope_flag == spec_has_slope(s0));
    }
    if slope_flag {
        let origin = random_point_in_rect(&mut context.rand, smaller_extent);
        proof {
            lemma_rng_step(s0, (after_huge + 1) as nat);
            lemma_rng_step(s0, (after_huge + 2) as nat);
            assert(context.rand.state == rng_after(s0, (after_huge + 3) as nat));
        }
        let direction = random_dir(&mut context.rand);
        let length = context.rand.gen_range_i64(100_000, 300_001);
        let height = context.rand.gen_range_i64(100_000, 300_001);
        proof {
            lemma_rng_step(s0, (after_huge + 3) as nat);
            lemma_rng_step(s0, (after_huge + 4) as nat);
            lemma_rng_step(s0, (after_huge + 5) as nat);
            assert(context.rand.state == rng_after(s0, (after_huge + 6) as nat));
        }
        let sl = Slope { origin, direction, length, height };
        proof {
            assert(sl == spec_slope(s0, extent));
        }
        slopes.push(sl);
    }
    let ghost after_slope: nat = spec_after_slope(s0);
    proof {
        assert(context.rand.state == rng_after(s0, after_slope));
    }

    let smooth = context.rand.gen_bool_percent(50);
    proof {
        lemma_rng_step(s0, after_slope);
        assert(smooth == spec_smooth_flag(s0));
    }
    let relax = context.rand.gen_bool_percent(50);
    proof {
        lemma_rng_step(s0, (after_slope + 1) as nat);
        assert(relax == spec_relax_flag(s0));
        assert(context.rand.state == rng_after(s0, spec_feature_draws(s0)));
    }
    let erode = true;

    TerrainFeatures { slopes, cones, smooth, relax, erode }
}

} // verus!
