use vstd::prelude::*;

use crate::erosion::{lemma_isqrt_unique, spec_isqrt};
use crate::geom::{dist_sq, in_bound, isqrt, spec_dist_sq};
use crate::priority_index::{Entry, PriorityQueue};
use crate::terrain_graph::{spec_connected, TerrainGraph, VertexType};
use crate::util::{map_clamp, max_position, normalize, spec_map_clamp, spec_normalized};
use crate::Terrain;
use vstd::multiset::Multiset;

verus! {

broadcast use vstd::multiset::group_multiset_properties;

/// Habitability scores are fractions of one million.
pub const SCORE_SCALE: i64 = 1_000_000;

/// The raw habitability of vertex `v`, before normalization: zero at the
/// boundary and under water, otherwise the clamped flux fraction attenuated
/// toward the domain edges.
pub open spec fn spec_habitability_raw(t: Terrain, v: int) -> int {
    if t.graph.vertex_type@[v] == VertexType::Boundary || t.data.elevation@[v] < 0 {
        0
    } else {
        let base = if t.data.flux@[v] * 20 * SCORE_SCALE / t.graph.nv() > SCORE_SCALE {
            SCORE_SCALE as int
        } else {
            t.data.flux@[v] * 20 * SCORE_SCALE / t.graph.nv()
        };
        let p = t.graph.vertices@[v];
        let dist_x = if p.x - t.extent.x0 < t.extent.x1 - p.x {
            p.x - t.extent.x0
        } else {
            t.extent.x1 - p.x
        };
        let dist_y = if p.y - t.extent.y0 < t.extent.y1 - p.y {
            p.y - t.extent.y0
        } else {
            t.extent.y1 - p.y
        };
        let ax = spec_map_clamp(dist_x as int, 0, 100_000, 0, 1000);
        let ay = spec_map_clamp(dist_y as int, 0, 100_000, 0, 1000);
        base * ax / 1000 * ay / 1000
    }
}

/// Generate the normalized habitability of every vertex.
pub fn generate_habitability(terrain: &Terrain) -> (r: Vec<i64>)
    requires
        terrain.wf(),
    ensures
        r@.len() == terrain.graph.nv(),
        forall|v: int| 0 <= v < r@.len() ==> 0 <= #[trigger] r@[v] <= SCORE_SCALE,
        forall|v: int|
            0 <= v < r@.len() ==> #[trigger] r@[v] == spec_normalized(
                Seq::new(terrain.graph.nv() as nat, |u: int| spec_habitability_raw(*terrain, u) as i64),
                SCORE_SCALE as int,
                v,
            ),
{
    let nv = terrain.graph.vertices.len();
    let ghost raw = Seq::new(
        terrain.graph.nv() as nat,
        |u: int| spec_habitability_raw(*terrain, u) as i64,
    );
    let mut score: Vec<i64> = Vec::new();
    let mut v: usize = 0;
    while v < nv
        invariant
            v <= nv,
            terrain.wf(),
            nv == terrain.graph.nv(),
            raw == Seq::new(
                terrain.graph.nv() as nat,
                |u: int| spec_habitability_raw(*terrain, u) as i64,
            ),
            score@.len() == v,
            forall|u: int|
                0 <= u < v ==> #[trigger] score@[u] == raw[u] && 0 <= score@[u] <= SCORE_SCALE,
        decreases nv - v,
    {
        let s: i64;
        if terrain.graph.vertex_type[v] == VertexType::Boundary || terrain.data.elevation[v] < 0 {
            s = 0;
        } else {
            let flux = terrain.data.flux[v];
            proof {
                assert(flux * 20 * (SCORE_SCALE as u64) <= 0x1_0000_0001u64 * 20_000_000)
                    by (nonlinear_arith)
                    requires
                        flux <= 0x1_0000_0001u64,
                ;
                vstd::arithmetic::div_mod::lemma_div_pos_is_pos(
                    (flux * 20 * SCORE_SCALE as u64) as int,
                    nv as int,
                );
            }
            let scaled = flux * 20 * (SCORE_SCALE as u64) / (nv as u64);
            let base: i64 = if scaled > SCORE_SCALE as u64 {
                SCORE_SCALE
            } else {
                scaled as i64
            };
            let p = terrain.graph.vertices[v];
            let dx_lo = p.x - terrain.extent.x0;
            let dx_hi = terrain.extent.x1 - p.x;
            let dist_x = if dx_lo < dx_hi {
                dx_lo
            } else {
                dx_hi
            };
            let dy_lo = p.y - terrain.extent.y0;
            let dy_hi = terrain.extent.y1 - p.y;
            let dist_y = if dy_lo < dy_hi {
                dy_lo
            } else {
                dy_hi
            };
            let ax = map_clamp(dist_x, 0, 100_000, 0, 1000);
            let ay = map_clamp(dist_y, 0, 100_000, 0, 1000);
            proof {
                assert(0 <= base * ax <= 1_000_000_000) by (nonlinear_arith)
                    requires
                        0 <= base <= 1_000_000,
                        0 <= ax <= 1000,
                ;
                assert(0 <= base * ax / 1000 <= 1_000_000) by (nonlinear_arith)
                    requires
                        0 <= base * ax <= 1_000_000_000,
                ;
                assert(0 <= base * ax / 1000 * ay <= 1_000_000_000) by (nonlinear_arith)
                    requires
                        0 <= base * ax / 1000 <= 1_000_000,
                        0 <= ay <= 1000,
                ;
                assert(0 <= base * ax / 1000 * ay / 1000 <= 1_000_000) by (nonlinear_arith)
                    requires
                        0 <= base * ax / 1000 * ay <= 1_000_000_000,
                ;
            }
            s = base * ax / 1000 * ay / 1000;
        }
        proof {
            assert(s as int == spec_habitability_raw(*terrain, v as int));
            assert(raw[v as int] == s);
        }
        score.push(s);
        v = v + 1;
    }
    proof {
        assert(score@ =~= raw);
    }
    normalize(&mut score, SCORE_SCALE);
    score
}

/// The travel cost from `a` to `b`, in milli-units of distance: water is
/// cheap to cross, coast transitions are dear, and on land the cost grows
/// with climb (descending costs more than climbing) and with river flux.
pub open spec fn spec_travel_cost(t: Terrain, a: int, b: int) -> int {
    let d = spec_isqrt(spec_dist_sq(t.graph.vertices@[a], t.graph.vertices@[b]));
    let ea = t.data.elevation@[a];
    let eb = t.data.elevation@[b];
    if ea < 0 {
        d * 100
    } else if eb < 0 {
        d * 1000
    } else if d == 0 {
        0
    } else {
        let delta = eb - ea;
        let mag = if delta > 0 {
            delta / 10
        } else {
            -delta
        };
        let ratio = mag * 1000 / d;
        let sqrt_flux = spec_isqrt(t.data.flux@[a] * 1_000_000 / t.graph.nv());
        let mult = 1000 + ratio * ratio / 4000 + 100 * sqrt_flux;
        let cost = d * mult / 1000;
        if cost > 0x1000_0000_0000_0000 {
            0x1000_0000_0000_0000
        } else {
            cost
        }
    }
}

/// Compute the travel cost between two vertices.
pub fn calculate_travel_cost(terrain: &Terrain, a: usize, b: usize) -> (r: u64)
    requires
        terrain.wf(),
        a < terrain.graph.nv(),
        b < terrain.graph.nv(),
    ensures
        r == spec_travel_cost(*terrain, a as int, b as int),
        r <= 0x1000_0000_0000_0000,
{
    let pos_a = terrain.graph.vertices[a];
    let pos_b = terrain.graph.vertices[b];
    let dsq = dist_sq(pos_a, pos_b);
    let d = isqrt(dsq as u64) as i64;
    proof {
        lemma_isqrt_unique(dsq as int, d as int);
    }
    let elev_a = terrain.data.elevation[a];
    let elev_b = terrain.data.elevation[b];

    // Small cost for traversing water.
    if elev_a < 0 {
        return (d * 100) as u64;
    }
    // Large cost for transitioning from land to water.
    if elev_b < 0 {
        return (d * 1000) as u64;
    }
    if d == 0 {
        return 0;
    }
    // Uphill is less expensive than downhill, so regions end on ridges.
    let delta = elev_b - elev_a;
    let mag = if delta > 0 {
        delta / 10
    } else {
        -delta
    };
    proof {
        if delta > 0 {
            vstd::arithmetic::div_mod::lemma_div_pos_is_pos(delta as int, 10);
            vstd::arithmetic::div_mod::lemma_div_is_ordered(delta as int, 200_000_000, 10);
        }
        vstd::arithmetic::div_mod::lemma_div_pos_is_pos((mag as int) * 1000, d as int);
    }
    let ratio = (mag as i128) * 1000 / (d as i128);
    proof {
        vstd::arithmetic::div_mod::lemma_div_is_ordered(
            (mag as int) * 1000,
            200_000_000_000,
            d as int,
        );
    }
    let flux = terrain.data.flux[a];
    proof {
        assert(flux * 1_000_000 <= 0x1_0000_0001u64 * 1_000_000) by (nonlinear_arith)
            requires
                flux <= 0x1_0000_0001u64,
        ;
    }
    let sq_arg = flux * 1_000_000 / (terrain.graph.vertices.len() as u64);
    let sqrt_flux = isqrt(sq_arg);
    proof {
        lemma_isqrt_unique(sq_arg as int, sqrt_flux as int);
        assert(0 <= ratio * ratio <= 200_000_000_000i128 * 200_000_000_000) by (nonlinear_arith)
            requires
                0 <= ratio <= 200_000_000_000i128,
        ;
    }
    let mult: i128 = 1000 + ratio * ratio / 4000 + 100 * (sqrt_flux as i128);
    proof {
        assert(0 <= ratio * ratio / 4000 <= 10_000_000_000_000_000_000) by (nonlinear_arith)
            requires
                0 <= ratio * ratio <= 40_000_000_000_000_000_000_000i128,
        ;
        assert(0 <= (d as i128) * mult <= 4_294_967_296i128 * 11_000_000_000_000_000_000)
            by (nonlinear_arith)
            requires
                0 <= d as i128 <= 4_294_967_296i128,
                0 <= mult <= 11_000_000_000_000_000_000i128,
        ;
        vstd::arithmetic::div_mod::lemma_div_pos_is_pos((d as int) * (mult as int), 1000);
    }
    let cost = (d as i128) * mult / 1000;
    if cost > 0x1000_0000_0000_0000 {
        0x1000_0000_0000_0000
    } else {
        cost as u64
    }
}

/// The position of the first maximum of a score sequence (zero on empty).
pub open spec fn spec_first_max(s: Seq<i64>) -> int
    decreases s.len(),
{
    if s.len() <= 1 {
        0
    } else {
        let prev = spec_first_max(s.drop_last());
        if s.last() > s[prev] {
            s.len() - 1
        } else {
            prev
        }
    }
}

/// One suppression pass: every score is attenuated by its distance from the
/// newly placed city.
pub open spec fn spec_suppress(t: Terrain, scores: Seq<i64>, city: int) -> Seq<i64> {
    Seq::new(
        scores.len(),
        |i: int|
            (scores[i] * spec_map_clamp(
                spec_isqrt(spec_dist_sq(t.graph.vertices@[i], t.graph.vertices@[city])),
                0,
                100_000,
                0,
                1000,
            ) / 1000) as i64,
    )
}

/// The scores and chosen cities after `n` rounds of greedy placement.
pub open spec fn spec_place_cities(t: Terrain, habit: Seq<i64>, n: nat) -> (Seq<usize>, Seq<i64>)
    decreases n,
{
    if n == 0 {
        (Seq::empty(), habit)
    } else {
        let (cities, scores) = spec_place_cities(t, habit, (n - 1) as nat);
        let city = spec_first_max(scores);
        (cities.push(city as usize), spec_suppress(t, scores, city))
    }
}

proof fn lemma_first_max_range(s: Seq<i64>)
    requires
        s.len() >= 1,
    ensures
        0 <= spec_first_max(s) < s.len(),
    decreases s.len(),
{
    if s.len() > 1 {
        lemma_first_max_range(s.drop_last());
    }
}

/// The first maximum is the unique position that tops every score and
/// strictly tops every earlier one.
proof fn lemma_first_max_unique(s: Seq<i64>, i: int)
    requires
        0 <= i < s.len(),
        forall|j: int| 0 <= j < s.len() ==> #[trigger] s[j] <= s[i],
        forall|j: int| 0 <= j < i ==> #[trigger] s[j] < s[i],
    ensures
        i == spec_first_max(s),
    decreases s.len(),
{
    if s.len() > 1 {
        let d = s.drop_last();
        lemma_first_max_range(d);
        let prev = spec_first_max(d);
        if i == s.len() - 1 {
            assert(d[prev] == s[prev]);
            assert(s[prev] < s[i]);
        } else {
            assert(forall|j: int| 0 <= j < d.len() ==> #[trigger] d[j] == s[j]);
            lemma_first_max_unique(d, i);
            assert(s.last() <= s[i]);
        }
    }
}

/// Every already-placed city keeps a zero score through all later rounds:
/// placing it wiped its score, and suppression keeps zero at zero.
proof fn lemma_placed_city_scores_zero(t: Terrain, habit: Seq<i64>, n: nat)
    requires
        t.wf(),
        habit.len() == t.graph.nv(),
        habit.len() >= 1,
    ensures
        spec_place_cities(t, habit, n).0.len() == n,
        spec_place_cities(t, habit, n).1.len() == habit.len(),
        forall|k: int|
            0 <= k < n ==> (#[trigger] spec_place_cities(t, habit, n).0[k]) < habit.len(),
        forall|k: int|
            0 <= k < n ==> spec_place_cities(t, habit, n).1[#[trigger] spec_place_cities(
                t,
                habit,
                n,
            ).0[k] as int] == 0,
    decreases n,
{
    if n > 0 {
        lemma_placed_city_scores_zero(t, habit, (n - 1) as nat);
        let pc = spec_place_cities(t, habit, (n - 1) as nat).0;
        let ps = spec_place_cities(t, habit, (n - 1) as nat).1;
        let city = spec_first_max(ps);
        lemma_first_max_range(ps);
        let post = spec_suppress(t, ps, city);
        // The new city's own attenuation is zero: it sits at distance zero.
        let p = t.graph.vertices@[city];
        assert(spec_dist_sq(p, p) == 0) by (nonlinear_arith);
        lemma_isqrt_unique(0, 0);
        vstd::arithmetic::div_mod::lemma_div_of0(100_000);
        vstd::arithmetic::div_mod::lemma_div_of0(1000);
        assert(spec_map_clamp(0, 0, 100_000, 0, 1000) == 0);
        assert(post[city] == (ps[city] * 0 / 1000) as i64);
        assert(ps[city] * 0 == 0) by (nonlinear_arith);
        assert(post[city] == 0);
        // Earlier cities were already at zero, and zero stays zero.
        assert forall|k: int| 0 <= k < n - 1 implies post[#[trigger] pc[k] as int] == 0 by {
            assert(ps[pc[k] as int] == 0);
            let att = spec_map_clamp(
                spec_isqrt(spec_dist_sq(t.graph.vertices@[pc[k] as int], p)),
                0,
                100_000,
                0,
                1000,
            );
            assert(0int * att == 0) by (nonlinear_arith);
            assert(post[pc[k] as int] == (ps[pc[k] as int] * att / 1000) as i64);
        }
        assert forall|k: int|
            0 <= k < n implies spec_place_cities(t, habit, n).1[#[trigger] spec_place_cities(
            t,
            habit,
            n,
        ).0[k] as int] == 0 by {
            assert(spec_place_cities(t, habit, n).0 == pc.push(city as usize));
            assert(spec_place_cities(t, habit, n).1 == post);
            if k < n - 1 {
                assert(spec_place_cities(t, habit, n).0[k] == pc[k]);
            } else {
                assert(spec_place_cities(t, habit, n).0[k] == city as usize);
            }
        }
    }
}

/// Distinct placement: whenever a round still finds a strictly positive best
/// score, the city it places differs from every earlier one (an earlier
/// city's score is already zero).
pub proof fn lemma_city_distinctness(t: Terrain, habit: Seq<i64>, k1: int, k2: int)
    requires
        t.wf(),
        habit.len() == t.graph.nv(),
        habit.len() >= 1,
        0 <= k1 < k2,
        ({
            let s = spec_place_cities(t, habit, k2 as nat).1;
            s[spec_first_max(s)] > 0
        }),
    ensures
        spec_place_cities(t, habit, (k2 + 1) as nat).0[k2] != spec_place_cities(
            t,
            habit,
            (k2 + 1) as nat,
        ).0[k1],
{
    lemma_placed_city_scores_zero(t, habit, k2 as nat);
    let pc = spec_place_cities(t, habit, k2 as nat).0;
    let ps = spec_place_cities(t, habit, k2 as nat).1;
    lemma_first_max_range(ps);
    let city2 = spec_first_max(ps);
    assert(spec_place_cities(t, habit, (k2 + 1) as nat).0 == pc.push(city2 as usize));
    assert(spec_place_cities(t, habit, (k2 + 1) as nat).0[k2] == city2 as usize);
    assert(spec_place_cities(t, habit, (k2 + 1) as nat).0[k1] == pc[k1]);
    assert(ps[pc[k1] as int] == 0);
    assert(ps[city2] > 0);
}

/// How many vertices still have no region.
spec fn count_unassigned(s: Seq<Option<usize>>) -> nat
    decreases s.len(),
{
    if s.len() == 0 {
        0
    } else {
        count_unassigned(s.drop_last()) + if s.last() is None {
            1nat
        } else {
            0nat
        }
    }
}

proof fn lemma_count_unassigned_update_kept(s: Seq<Option<usize>>, i: int, v: Option<usize>)
    requires
        0 <= i < s.len(),
        s[i] is Some,
        v is Some,
    ensures
        count_unassigned(s.update(i, v)) == count_unassigned(s),
    decreases s.len(),
{
    if i == s.len() - 1 {
        assert(s.update(i, v).drop_last() =~= s.drop_last());
    } else {
        assert(s.update(i, v).drop_last() =~= s.drop_last().update(i, v));
        lemma_count_unassigned_update_kept(s.drop_last(), i, v);
    }
}

proof fn lemma_count_unassigned_update(s: Seq<Option<usize>>, i: int, v: Option<usize>)
    requires
        0 <= i < s.len(),
        s[i] is None,
        v is Some,
    ensures
        count_unassigned(s) >= 1,
        count_unassigned(s.update(i, v)) == count_unassigned(s) - 1,
    decreases s.len(),
{
    if i == s.len() - 1 {
        assert(s.update(i, v).drop_last() =~= s.drop_last());
    } else {
        assert(s.update(i, v).drop_last() =~= s.drop_last().update(i, v));
        lemma_count_unassigned_update(s.drop_last(), i, v);
    }
}

/// `u` is an already-assigned member of `c`'s region adjacent to `v`.
pub open spec fn region_parent(
    he: Seq<usize>,
    nearest: Seq<Option<usize>>,
    c: usize,
    u: int,
    v: int,
) -> bool {
    &&& 0 <= u < nearest.len()
    &&& nearest[u] == Some(c)
    &&& spec_connected(he, u).contains(v as usize)
}

/// `v` is joined to its city `c` by a chain of adjacent vertices that all
/// belong to `c`'s own region, within `fuel` steps: each region induces a
/// connected subgraph around its city.
pub open spec fn region_reaches(
    he: Seq<usize>,
    nearest: Seq<Option<usize>>,
    c: usize,
    v: int,
    fuel: nat,
) -> bool
    decreases fuel,
{
    if v == c as int {
        true
    } else if fuel == 0 {
        false
    } else {
        exists|u: int|
            (#[trigger] region_parent(he, nearest, c, u, v)) && region_reaches(
                he,
                nearest,
                c,
                u,
                (fuel - 1) as nat,
            )
    }
}

proof fn lemma_region_reaches_monotone(
    he: Seq<usize>,
    nearest: Seq<Option<usize>>,
    c: usize,
    v: int,
    fuel: nat,
    more: nat,
)
    requires
        region_reaches(he, nearest, c, v, fuel),
        fuel <= more,
    ensures
        region_reaches(he, nearest, c, v, more),
    decreases fuel,
{
    if v != c as int {
        let u = choose|u: int|
            (#[trigger] region_parent(he, nearest, c, u, v)) && region_reaches(
                he,
                nearest,
                c,
                u,
                (fuel - 1) as nat,
            );
        lemma_region_reaches_monotone(he, nearest, c, u, (fuel - 1) as nat, (more - 1) as nat);
    }
}

/// An assignment-order ranking justifies every assigned vertex: a vertex is
/// its own city, or has an adjacent same-region parent assigned earlier.
pub open spec fn region_justified(
    he: Seq<usize>,
    nearest: Seq<Option<usize>>,
    rank: Seq<int>,
) -> bool {
    &&& rank.len() == nearest.len()
    &&& forall|v: int| 0 <= v < rank.len() ==> 0 <= (#[trigger] rank[v]) < rank.len()
    &&& forall|v: int|
        0 <= v < nearest.len() && (#[trigger] nearest[v]) is Some ==> (v == nearest[v]->0 as int
            || exists|u: int|
            (#[trigger] region_parent(he, nearest, nearest[v]->0, u, v)) && rank[u] < rank[v])
}

proof fn lemma_justified_reaches(
    he: Seq<usize>,
    nearest: Seq<Option<usize>>,
    rank: Seq<int>,
    v: int,
)
    requires
        region_justified(he, nearest, rank),
        0 <= v < nearest.len(),
        nearest[v] is Some,
    ensures
        region_reaches(he, nearest, nearest[v]->0, v, (rank[v] + 1) as nat),
    decreases rank[v] + 1,
{
    let c = nearest[v]->0;
    if v != c as int {
        let u = choose|u: int|
            (#[trigger] region_parent(he, nearest, c, u, v)) && rank[u] < rank[v];
        lemma_justified_reaches(he, nearest, rank, u);
        lemma_region_reaches_monotone(he, nearest, c, u, (rank[u] + 1) as nat, rank[v] as nat);
    }
}

/// A queued proposal is grounded: some already-assigned vertex of the
/// proposing city's region is adjacent to the candidate.
pub open spec fn entry_grounded(he: Seq<usize>, nearest: Seq<Option<usize>>, e: Entry) -> bool {
    exists|u: int|
        #[trigger] region_parent(
            he,
            nearest,
            (e.1 / 0x1_0000_0000) as usize,
            u,
            (e.1 % 0x1_0000_0000) as int,
        )
}

/// Some queued entry proposes region growth into vertex `w`.
pub open spec fn queued_vert(m: Multiset<Entry>, w: int) -> bool {
    exists|e: Entry| m.count(e) > 0 && (#[trigger] e.1) % 0x1_0000_0000 == w
}

/// The combined payload word of a (city, candidate) pair.
fn encode_pair(city: usize, vert: usize) -> (r: u64)
    requires
        city < 0x1_0000_0000,
        vert < 0x1_0000_0000,
    ensures
        r == city * 0x1_0000_0000 + vert,
        r / 0x1_0000_0000 == city,
        r % 0x1_0000_0000 == vert,
{
    proof {
        assert((city as int) * 0x1_0000_0000 + vert < 0x1_0000_0000_0000_0000)
            by (nonlinear_arith)
            requires
                0 <= city < 0x1_0000_0000,
                0 <= vert < 0x1_0000_0000,
        ;
        vstd::arithmetic::div_mod::lemma_fundamental_div_mod_converse(
            (city as int) * 0x1_0000_0000 + vert,
            0x1_0000_0000,
            city as int,
            vert as int,
        );
    }
    (city as u64) * 0x1_0000_0000 + (vert as u64)
}

/// Grow a region outward from every city at once: a queue of (origin city,
/// candidate vertex) pairs keyed by negated travel cost, where the first
/// assignment of a vertex wins. Every vertex assigned gets the index of a
/// city; cities belong to themselves; and at the end the assigned set is
/// closed under adjacency, so every vertex connected to a city is covered.
#[verifier::rlimit(100)]
pub fn generate_regions(terrain: &Terrain, cities: &Vec<usize>) -> (r: Vec<Option<usize>>)
    requires
        terrain.wf(),
        forall|k: int| 0 <= k < cities@.len() ==> (#[trigger] cities@[k]) < terrain.graph.nv(),
        cities@.len() <= 1_000_000,
    ensures
        r@.len() == terrain.graph.nv(),
        forall|k: int|
            0 <= k < cities@.len() ==> r@[#[trigger] cities@[k] as int] == Some(cities@[k]),
        forall|v: int|
            0 <= v < r@.len() && (#[trigger] r@[v]) is Some ==> cities@.contains(r@[v]->0)
                && r@[v]->0 < terrain.graph.nv(),
        // The assigned set is closed under adjacency.
        forall|v: int, k: int|
            0 <= v < r@.len() && (#[trigger] r@[v]) is Some && 0 <= k < spec_connected(
                terrain.graph.voronoi.halfedges@,
                v,
            ).len() ==> r@[(#[trigger] spec_connected(terrain.graph.voronoi.halfedges@, v)[
                k]) as int] is Some,
        // Each region is connected: an assigned vertex reaches its city
        // through adjacent vertices of the same region.
        forall|v: int|
            0 <= v < r@.len() && (#[trigger] r@[v]) is Some ==> region_reaches(
                terrain.graph.voronoi.halfedges@,
                r@,
                r@[v]->0,
                v,
                r@.len() as nat,
            ),
{
    let nv = terrain.graph.vertices.len();
    let mut nearest_city: Vec<Option<usize>> = Vec::new();
    let mut i: usize = 0;
    while i < nv
        invariant
            i <= nv,
            nearest_city@.len() == i,
            forall|v: int| 0 <= v < i ==> (#[trigger] nearest_city@[v]) is None,
            count_unassigned(nearest_city@) == i,
        decreases nv - i,
    {
        let ghost pre = nearest_city@;
        nearest_city.push(None);
        proof {
            assert(nearest_city@.drop_last() =~= pre);
        }
        i = i + 1;
    }

    let mut queue = PriorityQueue::new();
    let ghost mut pushes: int = 0;
    let ghost mut rank: Seq<int> = Seq::new(nv as nat, |v: int| 0);
    let ghost mut counter: int = 0;

    // Seed: each city belongs to itself, and its neighbors are enqueued.
    let ncities = cities.len();
    let mut c: usize = 0;
    while c < ncities
        invariant
            c <= ncities,
            terrain.wf(),
            nv == terrain.graph.nv(),
            nv < 0x1_0000_0000,
            ncities == cities@.len() <= 1_000_000,
            forall|k: int| 0 <= k < cities@.len() ==> (#[trigger] cities@[k]) < nv,
            nearest_city@.len() == nv,
            queue.wf(),
            queue@.len() <= pushes,
            0 <= pushes <= 3 * c,
            count_unassigned(nearest_city@) <= nv,
            rank.len() == nv,
            0 <= counter <= nv,
            counter + count_unassigned(nearest_city@) == nv,
            forall|v: int|
                0 <= v < nv && (#[trigger] nearest_city@[v]) is Some ==> rank[v] < counter,
            region_justified(terrain.graph.voronoi.halfedges@, nearest_city@, rank),
            forall|v: int|
                0 <= v < nv && (#[trigger] nearest_city@[v]) is Some ==> nearest_city@[v]->0
                    == v,
            forall|k: int|
                0 <= k < c ==> nearest_city@[#[trigger] cities@[k] as int] == Some(cities@[k]),
            forall|v: int|
                0 <= v < nv && (#[trigger] nearest_city@[v]) is Some ==> cities@.contains(
                    nearest_city@[v]->0,
                ) && nearest_city@[v]->0 < nv,
            forall|e: Entry|
                #[trigger] queue@.count(e) > 0 ==> e.1 % 0x1_0000_0000 < nv && cities@.contains(
                    (e.1 / 0x1_0000_0000) as usize,
                ) && e.1 / 0x1_0000_0000 < nv && entry_grounded(
                    terrain.graph.voronoi.halfedges@,
                    nearest_city@,
                    e,
                ),
            // Assigned vertices have their neighbors assigned or queued.
            forall|v: int, k: int|
                0 <= v < nv && (#[trigger] nearest_city@[v]) is Some && 0 <= k < spec_connected(
                    terrain.graph.voronoi.halfedges@,
                    v,
                ).len() ==> {
                    let w = (#[trigger] spec_connected(terrain.graph.voronoi.halfedges@, v)[
                        k]) as int;
                    nearest_city@[w] is Some || queued_vert(queue@, w)
                },
        decreases ncities - c,
    {
        let city = cities[c];
        let ghost pre_assigned = nearest_city@;
        let ghost he = terrain.graph.voronoi.halfedges@;
        if nearest_city[city].is_none() {
            proof {
                lemma_count_unassigned_update(nearest_city@, city as int, Some(city));
            }
            nearest_city.set(city, Some(city));
            proof {
                rank = rank.update(city as int, counter);
                counter = counter + 1;
                assert forall|v: int|
                    0 <= v < nv && (#[trigger] nearest_city@[v]) is Some implies (v
                    == nearest_city@[v]->0 as int || exists|u: int|
                    (#[trigger] region_parent(he, nearest_city@, nearest_city@[v]->0, u, v))
                        && rank[u] < rank[v]) by {
                    if v != city as int && v != nearest_city@[v]->0 as int {
                        let u = choose|u: int|
                            (#[trigger] region_parent(he, pre_assigned, pre_assigned[v]->0, u, v))
                                && rank[u] < rank[v];
                        assert(region_parent(he, nearest_city@, nearest_city@[v]->0, u, v));
                    }
                }
                assert(region_justified(he, nearest_city@, rank));
                assert forall|e: Entry| #[trigger] queue@.count(e) > 0 implies entry_grounded(
                    he,
                    nearest_city@,
                    e,
                ) by {
                    let u = choose|u: int|
                        #[trigger] region_parent(
                            he,
                            pre_assigned,
                            (e.1 / 0x1_0000_0000) as usize,
                            u,
                            (e.1 % 0x1_0000_0000) as int,
                        );
                    assert(region_parent(
                        he,
                        nearest_city@,
                        (e.1 / 0x1_0000_0000) as usize,
                        u,
                        (e.1 % 0x1_0000_0000) as int,
                    ));
                }
            }
        } else {
            proof {
                lemma_count_unassigned_update_kept(nearest_city@, city as int, Some(city));
            }
            nearest_city.set(city, Some(city));
            proof {
                assert(pre_assigned[city as int] == Some(city));
                assert(nearest_city@ =~= pre_assigned);
            }
        }
        proof {
            assert(cities@.contains(cities@[c as int]));
        }
        let neighbors = terrain.graph.connected_vertices(city);
        let mut k: usize = 0;
        while k < neighbors.len()
            invariant
                k <= neighbors@.len(),
                terrain.wf(),
                nv == terrain.graph.nv(),
                nv < 0x1_0000_0000,
                ncities == cities@.len() <= 1_000_000,
                forall|kk: int| 0 <= kk < cities@.len() ==> (#[trigger] cities@[kk]) < nv,
                c < ncities,
                city == cities@[c as int],
                city < nv,
                neighbors@ == spec_connected(terrain.graph.voronoi.halfedges@, city as int),
                forall|j: int| 0 <= j < neighbors@.len() ==> (#[trigger] neighbors@[j]) < nv,
                nearest_city@.len() == nv,
                nearest_city@[city as int] == Some(city),
                queue.wf(),
                queue@.len() <= pushes,
                0 <= pushes <= 3 * c + k,
                count_unassigned(nearest_city@) <= nv,
                rank.len() == nv,
                0 <= counter <= nv,
                counter + count_unassigned(nearest_city@) == nv,
                forall|v: int|
                    0 <= v < nv && (#[trigger] nearest_city@[v]) is Some ==> rank[v] < counter,
                region_justified(terrain.graph.voronoi.halfedges@, nearest_city@, rank),
                forall|v: int|
                    0 <= v < nv && (#[trigger] nearest_city@[v]) is Some ==> nearest_city@[v]->0
                        == v,
                forall|kk: int|
                    0 <= kk <= c ==> nearest_city@[#[trigger] cities@[kk] as int] == Some(
                        cities@[kk],
                    ),
                forall|v: int|
                    0 <= v < nv && (#[trigger] nearest_city@[v]) is Some ==> cities@.contains(
                        nearest_city@[v]->0,
                    ) && nearest_city@[v]->0 < nv,
                forall|e: Entry|
                    #[trigger] queue@.count(e) > 0 ==> e.1 % 0x1_0000_0000 < nv
                        && cities@.contains((e.1 / 0x1_0000_0000) as usize) && e.1
                        / 0x1_0000_0000 < nv && entry_grounded(
                        terrain.graph.voronoi.halfedges@,
                        nearest_city@,
                        e,
                    ),
                forall|j: int| 0 <= j < k ==> queued_vert(queue@, neighbors@[j] as int),
                forall|v: int, kk: int|
                    0 <= v < nv && (#[trigger] nearest_city@[v]) is Some && v != city as int && 0
                        <= kk < spec_connected(terrain.graph.voronoi.halfedges@, v).len() ==> {
                        let w = (#[trigger] spec_connected(terrain.graph.voronoi.halfedges@, v)[
                            kk]) as int;
                        nearest_city@[w] is Some || queued_vert(queue@, w)
                    },
            decreases neighbors@.len() - k,
        {
            let vert = neighbors[k];
            let cost = calculate_travel_cost(terrain, city, vert);
            let value = encode_pair(city, vert);
            queue.push(value, -(cost as i64));
            proof {
                pushes = pushes + 1;
                let e: Entry = ((-(cost as i64)) as i64, value);
                assert(queue@.count(e) > 0);
                assert(e.1 % 0x1_0000_0000 == vert as int);
                assert(queued_vert(queue@, vert as int));
                assert(region_parent(
                    terrain.graph.voronoi.halfedges@,
                    nearest_city@,
                    (e.1 / 0x1_0000_0000) as usize,
                    city as int,
                    (e.1 % 0x1_0000_0000) as int,
                ));
                assert(entry_grounded(terrain.graph.voronoi.halfedges@, nearest_city@, e));
            }
            k = k + 1;
        }
        c = c + 1;
    }

    // Grow: pop the cheapest proposal; the first city to reach a vertex
    // claims it and proposes its neighbors in turn.
    loop
        invariant
            terrain.wf(),
            nv == terrain.graph.nv(),
            nv < 0x1_0000_0000,
            ncities == cities@.len() <= 1_000_000,
            forall|k: int| 0 <= k < cities@.len() ==> (#[trigger] cities@[k]) < nv,
            nearest_city@.len() == nv,
            queue.wf(),
            queue@.len() <= pushes,
            0 <= pushes <= 3 * ncities + 3 * (nv - count_unassigned(nearest_city@)),
            count_unassigned(nearest_city@) <= nv,
            rank.len() == nv,
            0 <= counter <= nv,
            counter + count_unassigned(nearest_city@) == nv,
            forall|v: int|
                0 <= v < nv && (#[trigger] nearest_city@[v]) is Some ==> rank[v] < counter,
            region_justified(terrain.graph.voronoi.halfedges@, nearest_city@, rank),
            forall|k: int|
                0 <= k < ncities ==> nearest_city@[#[trigger] cities@[k] as int] == Some(
                    cities@[k],
                ),
            forall|v: int|
                0 <= v < nv && (#[trigger] nearest_city@[v]) is Some ==> cities@.contains(
                    nearest_city@[v]->0,
                ) && nearest_city@[v]->0 < nv,
            forall|e: Entry|
                #[trigger] queue@.count(e) > 0 ==> e.1 % 0x1_0000_0000 < nv && cities@.contains(
                    (e.1 / 0x1_0000_0000) as usize,
                ) && e.1 / 0x1_0000_0000 < nv && entry_grounded(
                    terrain.graph.voronoi.halfedges@,
                    nearest_city@,
                    e,
                ),
            forall|v: int, k: int|
                0 <= v < nv && (#[trigger] nearest_city@[v]) is Some && 0 <= k < spec_connected(
                    terrain.graph.voronoi.halfedges@,
                    v,
                ).len() ==> {
                    let w = (#[trigger] spec_connected(terrain.graph.voronoi.halfedges@, v)[
                        k]) as int;
                    nearest_city@[w] is Some || queued_vert(queue@, w)
                },
        ensures
            queue@ =~= Multiset::<Entry>::empty(),
            region_justified(terrain.graph.voronoi.halfedges@, nearest_city@, rank),
            rank.len() == nv,
        decreases queue@.len() + 4 * count_unassigned(nearest_city@),
    {
        let ghost loop_queue = queue@;
        let ghost loop_assigned = nearest_city@;
        let popped = queue.pop();
        match popped {
            None => {
                break ;
            },
            Some(entry) => {
                let value = entry.1;
                let city = (value / 0x1_0000_0000) as usize;
                let vert = (value % 0x1_0000_0000) as usize;
                if nearest_city[vert].is_some() {
                    proof {
                        assert(queue@.len() == loop_queue.len() - 1);
                        assert forall|v: int, k: int|
                            0 <= v < nv && (#[trigger] nearest_city@[v]) is Some && 0 <= k
                                < spec_connected(terrain.graph.voronoi.halfedges@, v).len()
                            implies {
                            let w = (#[trigger] spec_connected(
                                terrain.graph.voronoi.halfedges@,
                                v,
                            )[k]) as int;
                            nearest_city@[w] is Some || queued_vert(queue@, w)
                        } by {
                            let w = (spec_connected(terrain.graph.voronoi.halfedges@, v)[
                                k]) as int;
                            if nearest_city@[w] is None {
                                let e = choose|e: Entry|
                                    loop_queue.count(e) > 0 && (#[trigger] e.1) % 0x1_0000_0000
                                        == w;
                                assert(e.1 % 0x1_0000_0000 == vert as int ==> false);
                                assert(queue@.count(e) > 0);
                            }
                        }
                    }
                    continue ;
                }
                proof {
                    lemma_count_unassigned_update(nearest_city@, vert as int, Some(city));
                }
                nearest_city.set(vert, Some(city));
                proof {
                    let ghost he = terrain.graph.voronoi.halfedges@;
                    rank = rank.update(vert as int, counter);
                    counter = counter + 1;
                    // The popped proposal was grounded: some assigned member
                    // of the city's region is adjacent to `vert`, and it was
                    // assigned earlier.
                    assert(loop_queue.count(entry) > 0);
                    assert(entry_grounded(he, loop_assigned, entry));
                    let gu = choose|u: int|
                        #[trigger] region_parent(
                            he,
                            loop_assigned,
                            (entry.1 / 0x1_0000_0000) as usize,
                            u,
                            (entry.1 % 0x1_0000_0000) as int,
                        );
                    assert(loop_assigned[gu] == Some(city));
                    assert(gu != vert as int);
                    assert(region_parent(he, nearest_city@, city, gu, vert as int));
                    assert(rank[gu] < rank[vert as int]);
                    assert forall|v: int|
                        0 <= v < nv && (#[trigger] nearest_city@[v]) is Some implies (v
                        == nearest_city@[v]->0 as int || exists|u: int|
                        (#[trigger] region_parent(he, nearest_city@, nearest_city@[v]->0, u, v))
                            && rank[u] < rank[v]) by {
                        if v == vert as int {
                            if v != city as int {
                                assert(region_parent(he, nearest_city@, city, gu, v) && rank[gu]
                                    < rank[v]);
                            }
                        } else if v != nearest_city@[v]->0 as int {
                            let u = choose|u: int|
                                (#[trigger] region_parent(
                                    he,
                                    loop_assigned,
                                    loop_assigned[v]->0,
                                    u,
                                    v,
                                )) && rank[u] < rank[v];
                            assert(region_parent(he, nearest_city@, nearest_city@[v]->0, u, v));
                        }
                    }
                    assert(region_justified(he, nearest_city@, rank));
                    // Queued proposals stay grounded: their witnesses keep
                    // their assignments.
                    assert forall|e: Entry| #[trigger] queue@.count(e) > 0 implies entry_grounded(
                        he,
                        nearest_city@,
                        e,
                    ) by {
                        assert(loop_queue.count(e) > 0);
                        let u = choose|u: int|
                            #[trigger] region_parent(
                                he,
                                loop_assigned,
                                (e.1 / 0x1_0000_0000) as usize,
                                u,
                                (e.1 % 0x1_0000_0000) as int,
                            );
                        assert(region_parent(
                            he,
                            nearest_city@,
                            (e.1 / 0x1_0000_0000) as usize,
                            u,
                            (e.1 % 0x1_0000_0000) as int,
                        ));
                    }
                }
                let neighbors = terrain.graph.connected_vertices(vert);
                let ghost mid_queue = queue@;
                let ghost mid_assigned = nearest_city@;
                let mut k: usize = 0;
                while k < neighbors.len()
                    invariant
                        k <= neighbors@.len(),
                        terrain.wf(),
                        nv == terrain.graph.nv(),
                        nv < 0x1_0000_0000,
                        ncities == cities@.len() <= 1_000_000,
                        forall|kk: int| 0 <= kk < cities@.len() ==> (#[trigger] cities@[kk]) < nv,
                        vert < nv,
                        city < nv,
                        cities@.contains(city),
                        neighbors@ == spec_connected(
                            terrain.graph.voronoi.halfedges@,
                            vert as int,
                        ),
                        forall|j: int| 0 <= j < neighbors@.len() ==> (#[trigger] neighbors@[j]) < nv,
                        nearest_city@ == mid_assigned,
                        nearest_city@.len() == nv,
                        nearest_city@[vert as int] == Some(city),
                        queue.wf(),
                        queue@.len() <= pushes,
                        0 <= pushes <= 3 * ncities + 3 * (nv - count_unassigned(
                            nearest_city@,
                        )) - 3 + k,
                        count_unassigned(nearest_city@) <= nv,
                        rank.len() == nv,
                        0 <= counter <= nv,
                        counter + count_unassigned(nearest_city@) == nv,
                        forall|v: int|
                            0 <= v < nv && (#[trigger] nearest_city@[v]) is Some ==> rank[v]
                                < counter,
                        region_justified(terrain.graph.voronoi.halfedges@, nearest_city@, rank),
                        queue@.len() <= mid_queue.len() + k,
                        forall|e: Entry|
                            #[trigger] mid_queue.count(e) > 0 ==> queue@.count(e) > 0,
                        forall|kk: int|
                            0 <= kk < ncities ==> nearest_city@[#[trigger] cities@[kk] as int]
                                == Some(cities@[kk]),
                        forall|v: int|
                            0 <= v < nv && (#[trigger] nearest_city@[v]) is Some
                                ==> cities@.contains(nearest_city@[v]->0) && nearest_city@[v]->0
                                < nv,
                        forall|e: Entry|
                            #[trigger] queue@.count(e) > 0 ==> e.1 % 0x1_0000_0000 < nv
                                && cities@.contains((e.1 / 0x1_0000_0000) as usize) && e.1
                                / 0x1_0000_0000 < nv && entry_grounded(
                                terrain.graph.voronoi.halfedges@,
                                nearest_city@,
                                e,
                            ),
                        forall|j: int| 0 <= j < k ==> queued_vert(queue@, neighbors@[j] as int),
                        forall|v: int, kk: int|
                            0 <= v < nv && (#[trigger] nearest_city@[v]) is Some && v
                                != vert as int && 0 <= kk < spec_connected(
                                terrain.graph.voronoi.halfedges@,
                                v,
                            ).len() ==> {
                                let w = (#[trigger] spec_connected(
                                    terrain.graph.voronoi.halfedges@,
                                    v,
                                )[kk]) as int;
                                nearest_city@[w] is Some || queued_vert(queue@, w)
                            },
                    decreases neighbors@.len() - k,
                {
                    let neighbor = neighbors[k];
                    let cost = calculate_travel_cost(terrain, city, neighbor);
                    let value2 = encode_pair(city, neighbor);
                    queue.push(value2, -(cost as i64));
                    proof {
                        pushes = pushes + 1;
                        let e: Entry = ((-(cost as i64)) as i64, value2);
                        assert(queue@.count(e) > 0);
                        assert(e.1 % 0x1_0000_0000 == neighbor as int);
                        assert(queued_vert(queue@, neighbor as int));
                        assert(region_parent(
                            terrain.graph.voronoi.halfedges@,
                            nearest_city@,
                            (e.1 / 0x1_0000_0000) as usize,
                            vert as int,
                            (e.1 % 0x1_0000_0000) as int,
                        ));
                        assert(entry_grounded(
                            terrain.graph.voronoi.halfedges@,
                            nearest_city@,
                            e,
                        ));
                    }
                    k = k + 1;
                }
                proof {
                    // Re-establish the closure for vertices other than `vert`:
                    // their queued witnesses survive (the popped entry served
                    // `vert`, which is now assigned).
                    assert forall|v: int, k2: int|
                        0 <= v < nv && (#[trigger] nearest_city@[v]) is Some && 0 <= k2
                            < spec_connected(terrain.graph.voronoi.halfedges@, v).len() implies {
                        let w = (#[trigger] spec_connected(terrain.graph.voronoi.halfedges@, v)[
                            k2]) as int;
                        nearest_city@[w] is Some || queued_vert(queue@, w)
                    } by {
                        let w = (spec_connected(terrain.graph.voronoi.halfedges@, v)[k2]) as int;
                        if nearest_city@[w] is None {
                            if v == vert as int {
                                assert(queued_vert(queue@, w));
                            } else {
                                assert(loop_assigned[v] is Some);
                                let e = choose|e: Entry|
                                    loop_queue.count(e) > 0 && (#[trigger] e.1) % 0x1_0000_0000
                                        == w;
                                assert(e.1 % 0x1_0000_0000 == vert as int ==> false);
                                assert(mid_queue.count(e) > 0);
                                assert(queue@.count(e) > 0);
                            }
                        }
                    }
                    assert(queue@.len() + 4 * count_unassigned(nearest_city@) < loop_queue.len()
                        + 4 * count_unassigned(loop_assigned));
                }
            },
        }
    }
    proof {
        let he = terrain.graph.voronoi.halfedges@;
        assert forall|v: int|
            0 <= v < nv && (#[trigger] nearest_city@[v]) is Some implies region_reaches(
            he,
            nearest_city@,
            nearest_city@[v]->0,
            v,
            nv as nat,
        ) by {
            lemma_justified_reaches(he, nearest_city@, rank, v);
            lemma_region_reaches_monotone(
                he,
                nearest_city@,
                nearest_city@[v]->0,
                v,
                (rank[v] + 1) as nat,
                nv as nat,
            );
        }
    }
    nearest_city
}

/// The settlement state: habitability scores, city placements, and the
/// region of every vertex.
#[derive(Debug, Clone)]
pub struct Regions {
    /// The normalized habitability of each terrain vertex.
    pub habitability: Vec<i64>,
    /// The vertex index of each city.
    pub cities: Vec<usize>,
    /// The city vertex each vertex belongs to (a vertex no city can reach,
    /// which a connected graph never produces, reports the first city).
    pub regions: Vec<usize>,
    /// The region of each vertex, or none where no city reached it.
    pub nearest_city: Vec<Option<usize>>,
}

impl Regions {
    /// Score habitability, place the cities greedily with spatial
    /// suppression, and grow their regions.
    pub fn new(terrain: &Terrain) -> (r: Regions)
        requires
            terrain.wf(),
            terrain.config.num_cities <= 1_000_000,
        ensures
            r.habitability@.len() == terrain.graph.nv(),
            r.cities@.len() == terrain.config.num_cities,
            r.cities@ == spec_place_cities(
                *terrain,
                r.habitability@,
                terrain.config.num_cities as nat,
            ).0,
            forall|k: int| 0 <= k < r.cities@.len() ==> (#[trigger] r.cities@[k]) < terrain.graph.nv(),
            r.regions@.len() == terrain.graph.nv(),
            r.nearest_city@.len() == terrain.graph.nv(),
            forall|k: int|
                0 <= k < r.cities@.len() ==> r.nearest_city@[#[trigger] r.cities@[k] as int]
                    == Some(r.cities@[k]),
            forall|v: int|
                0 <= v < r.nearest_city@.len() && (#[trigger] r.nearest_city@[v]) is Some
                    ==> r.cities@.contains(r.nearest_city@[v]->0),
            forall|v: int, k: int|
                0 <= v < r.nearest_city@.len() && (#[trigger] r.nearest_city@[v]) is Some && 0
                    <= k < spec_connected(terrain.graph.voronoi.halfedges@, v).len()
                    ==> r.nearest_city@[(#[trigger] spec_connected(
                    terrain.graph.voronoi.halfedges@,
                    v,
                )[k]) as int] is Some,
            forall|v: int|
                0 <= v < r.nearest_city@.len() && (#[trigger] r.nearest_city@[v]) is Some
                    ==> region_reaches(
                    terrain.graph.voronoi.halfedges@,
                    r.nearest_city@,
                    r.nearest_city@[v]->0,
                    v,
                    r.nearest_city@.len() as nat,
                ),
            forall|v: int|
                0 <= v < r.regions@.len() ==> (#[trigger] r.regions@[v]) < terrain.graph.nv() && (
                r.nearest_city@[v] matches Some(c) ==> r.regions@[v] == c) && (
                r.nearest_city@[v] is None ==> r.regions@[v] == (if r.cities@.len() > 0 {
                    r.cities@[0]
                } else {
                    0usize
                })),
    {
        let nv = terrain.graph.vertices.len();
        let habitability = generate_habitability(terrain);

        // Greedy placement: take the best remaining score, then suppress
        // scores near the new city so the next one lands elsewhere.
        let mut scores: Vec<i64> = Vec::new();
        let mut i: usize = 0;
        while i < nv
            invariant
                i <= nv,
                habitability@.len() == nv,
                scores@.len() == i,
                forall|q: int| 0 <= q < i ==> #[trigger] scores@[q] == habitability@[q],
            decreases nv - i,
        {
            scores.push(habitability[i]);
            i = i + 1;
        }

        let num_cities = terrain.config.num_cities as usize;
        let mut cities: Vec<usize> = Vec::new();
        let mut c: usize = 0;
        while c < num_cities
            invariant
                c <= num_cities,
                terrain.wf(),
                nv == terrain.graph.nv(),
                habitability@.len() == nv,
                scores@.len() == nv,
                forall|q: int| 0 <= q < nv ==> 0 <= #[trigger] scores@[q] <= 1_000_000,
                cities@.len() == c,
                forall|k: int| 0 <= k < c ==> (#[trigger] cities@[k]) < nv,
                (cities@, scores@) == spec_place_cities(*terrain, habitability@, c as nat),
            decreases num_cities - c,
        {
            let ghost pre_scores = scores@;
            let ghost pre_cities = cities@;
            let city_index: usize = match max_position(&scores) {
                Some(ix) => ix,
                None => {
                    proof {
                        assert(false);
                    }
                    0
                },
            };
            proof {
                lemma_first_max_unique(scores@, city_index as int);
            }
            let city_point = terrain.graph.vertices[city_index];

            // Suppress scores near the new city.
            let mut i: usize = 0;
            while i < nv
                invariant
                    i <= nv,
                    terrain.wf(),
                    nv == terrain.graph.nv(),
                    city_index < nv,
                    city_point == terrain.graph.vertices@[city_index as int],
                    in_bound(city_point),
                    pre_scores.len() == nv,
                    scores@.len() == nv,
                    forall|q: int| 0 <= q < nv ==> 0 <= #[trigger] pre_scores[q] <= 1_000_000,
                    forall|q: int| i <= q < nv ==> #[trigger] scores@[q] == pre_scores[q],
                    forall|q: int|
                        0 <= q < i ==> #[trigger] scores@[q] == spec_suppress(
                            *terrain,
                            pre_scores,
                            city_index as int,
                        )[q] && 0 <= scores@[q] <= 1_000_000,
                decreases nv - i,
            {
                let p = terrain.graph.vertices[i];
                let dsq = dist_sq(p, city_point);
                let dist = isqrt(dsq as u64) as i64;
                proof {
                    lemma_isqrt_unique(dsq as int, dist as int);
                }
                let att = map_clamp(dist, 0, 100_000, 0, 1000);
                let cur = scores[i];
                proof {
                    assert(0 <= cur * att <= 1_000_000_000) by (nonlinear_arith)
                        requires
                            0 <= cur <= 1_000_000,
                            0 <= att <= 1000,
                    ;
                    assert(0 <= cur * att / 1000 <= 1_000_000) by (nonlinear_arith)
                        requires
                            0 <= cur * att <= 1_000_000_000,
                    ;
                }
                scores.set(i, cur * att / 1000);
                i = i + 1;
            }
            cities.push(city_index);
            c = c + 1;
            proof {
                assert(scores@ =~= spec_suppress(*terrain, pre_scores, city_index as int));
                assert(cities@ == pre_cities.push(city_index));
                assert((cities@, scores@) == spec_place_cities(
                    *terrain,
                    habitability@,
                    c as nat,
                ));
            }
        }

        let nearest_city = generate_regions(terrain, &cities);

        // Flatten the assignment; an unreached vertex reports the first
        // city (or vertex zero when no city exists).
        let default_city: usize = if cities.len() > 0 {
            cities[0]
        } else {
            0
        };
        let ghost spec_default: usize = if cities@.len() > 0 {
            cities@[0]
        } else {
            0
        };
        let mut regions: Vec<usize> = Vec::new();
        let mut i: usize = 0;
        while i < nv
            invariant
                i <= nv,
                nv == terrain.graph.nv() >= 1,
                nearest_city@.len() == nv,
                default_city < nv,
                default_city == spec_default,
                spec_default == (if cities@.len() > 0 {
                    cities@[0]
                } else {
                    0usize
                }),
                forall|v: int|
                    0 <= v < nv && (#[trigger] nearest_city@[v]) is Some ==> nearest_city@[v]->0
                        < nv,
                regions@.len() == i,
                forall|v: int|
                    0 <= v < i ==> (#[trigger] regions@[v]) < nv && (nearest_city@[v] matches Some(
                        cc,
                    ) ==> regions@[v] == cc) && (nearest_city@[v] is None ==> regions@[v]
                        == spec_default),
            decreases nv - i,
        {
            let rv: usize = match nearest_city[i] {
                Some(cc) => cc,
                None => default_city,
            };
            regions.push(rv);
            i = i + 1;
        }

        Regions { habitability, cities, regions, nearest_city }
    }
}

/// A walk through the dual graph: consecutive entries are adjacent.
pub open spec fn graph_path(g: TerrainGraph, path: Seq<usize>) -> bool {
    &&& path.len() >= 1
    &&& forall|i: int| 0 <= i < path.len() ==> (#[trigger] path[i]) < g.nv()
    &&& forall|i: int|
        0 < i < path.len() ==> spec_connected(g.voronoi.halfedges@, path[i - 1] as int).contains(
            #[trigger] path[i],
        )
}

/// Region coverage: any vertex joined to a city by a path of adjacent
/// vertices is assigned to some city (with cities assigned to themselves).
pub proof fn lemma_region_coverage(
    g: TerrainGraph,
    cities: Seq<usize>,
    nearest: Seq<Option<usize>>,
    path: Seq<usize>,
)
    requires
        g.wf(),
        nearest.len() == g.nv(),
        forall|k: int| 0 <= k < cities.len() ==> (#[trigger] cities[k]) < g.nv(),
        forall|k: int| 0 <= k < cities.len() ==> nearest[#[trigger] cities[k] as int] == Some(cities[k]),
        forall|v: int, k: int|
            0 <= v < nearest.len() && (#[trigger] nearest[v]) is Some && 0 <= k < spec_connected(
                g.voronoi.halfedges@,
                v,
            ).len() ==> nearest[(#[trigger] spec_connected(g.voronoi.halfedges@, v)[k]) as int]
                is Some,
        graph_path(g, path),
        cities.contains(path[0]),
    ensures
        nearest[path.last() as int] is Some,
    decreases path.len(),
{
    if path.len() == 1 {
        let k = choose|k: int| 0 <= k < cities.len() && cities[k] == path[0];
        assert(nearest[cities[k] as int] == Some(cities[k]));
    } else {
        let prefix = path.drop_last();
        assert(graph_path(g, prefix)) by {
            assert(forall|i: int| 0 <= i < prefix.len() ==> prefix[i] == #[trigger] path[i]);
        }
        lemma_region_coverage(g, cities, nearest, prefix);
        let u = prefix.last() as int;
        let w = path.last();
        assert(spec_connected(g.voronoi.halfedges@, u).contains(w));
        let k = choose|k: int|
            0 <= k < spec_connected(g.voronoi.halfedges@, u).len() && spec_connected(
                g.voronoi.halfedges@,
                u,
            )[k] == w;
        assert(nearest[spec_connected(g.voronoi.halfedges@, u)[k] as int] is Some);
    }
}

} // verus!
