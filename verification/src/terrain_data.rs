use vstd::prelude::*;

use crate::erosion::{
    erode, generate_erosion, generate_flow, generate_flux, flow_acyclic, flow_targets_ok,
    lemma_isqrt_unique, spec_div1000, spec_isqrt, spec_normal_at, Flow, Normal3, ELEV_LIMIT,
};
use crate::geom::{dist_sq, in_bound, isqrt, spec_dist_sq, Point};
use crate::priority_index::{entry_ge, lemma_entry_order, Entry, PriorityQueue};
use vstd::multiset::Multiset;
use crate::terrain_features::{Cone, Slope, TerrainFeatures};
use crate::terrain_graph::{spec_connected, TerrainGraph, VertexType};
use crate::util::{saturate, spec_saturate};

verus! {

broadcast use vstd::multiset::group_multiset_properties, vstd::seq_lib::group_to_multiset_ensures;

/// A fixed-point power: `x` is a fraction of one thousand, and so is the
/// result; exponent one is the identity.
pub open spec fn spec_pow_fp(x: int, p: int) -> int
    decreases p,
{
    if p <= 1 {
        x
    } else {
        spec_pow_fp(x, p - 1) * x / 1000
    }
}

proof fn lemma_pow_fp_range(x: int, p: int)
    requires
        0 <= x <= 1000,
        p >= 1,
    ensures
        0 <= spec_pow_fp(x, p) <= 1000,
    decreases p,
{
    if p > 1 {
        lemma_pow_fp_range(x, p - 1);
        let prev = spec_pow_fp(x, p - 1);
        assert(0 <= prev * x <= 1000 * 1000) by (nonlinear_arith)
            requires
                0 <= prev <= 1000,
                0 <= x <= 1000,
        ;
        assert(0 <= prev * x / 1000 <= 1000) by (nonlinear_arith)
            requires
                0 <= prev * x <= 1000 * 1000,
        ;
    }
}

fn pow_fp(x: i64, p: i64) -> (r: i64)
    requires
        0 <= x <= 1000,
        1 <= p <= 6,
    ensures
        r == spec_pow_fp(x as int, p as int),
        0 <= r <= 1000,
{
    let mut acc = x;
    let mut k: i64 = 1;
    while k < p
        invariant
            1 <= k <= p <= 6,
            0 <= x <= 1000,
            acc == spec_pow_fp(x as int, k as int),
            0 <= acc <= 1000,
        decreases p - k,
    {
        proof {
            lemma_pow_fp_range(x as int, k as int);
            assert(0 <= acc * x <= 1000 * 1000) by (nonlinear_arith)
                requires
                    0 <= acc <= 1000,
                    0 <= x <= 1000,
            ;
            assert(0 <= acc * x / 1000 <= 1000) by (nonlinear_arith)
                requires
                    0 <= acc * x <= 1000 * 1000,
            ;
        }
        acc = acc * x / 1000;
        k = k + 1;
    }
    acc
}

/// Exponential in/out easing of a fixed-point fraction, symmetric about the
/// half point and linear at steepness one.
pub open spec fn spec_ease(t: int, p: int) -> int {
    if t <= 500 {
        spec_pow_fp(2 * t, p) / 2
    } else {
        1000 - spec_pow_fp(2000 - 2 * t, p) / 2
    }
}

pub fn ease_with_power(t: i64, p: i64) -> (r: i64)
    requires
        0 <= t <= 1000,
        1 <= p <= 6,
    ensures
        r == spec_ease(t as int, p as int),
        0 <= r <= 1000,
{
    if t <= 500 {
        pow_fp(2 * t, p) / 2
    } else {
        1000 - pow_fp(2000 - 2 * t, p) / 2
    }
}

/// The contribution of a cone at a point: its height eased by the closeness
/// to the center, zero beyond the radius.
pub open spec fn spec_cone_at(c: Cone, p: Point) -> int {
    let d = spec_isqrt(spec_dist_sq(p, c.center));
    let t = spec_saturate(1000 - d * 1000 / (c.radius as int));
    (c.height as int) * spec_ease(t, c.steepness as int) / 1000
}

/// The contribution of a slope at a point: its height scaled by the
/// saturated projection onto the slope vector.
pub open spec fn spec_slope_at(s: Slope, p: Point) -> int {
    let sx = spec_div1000(s.direction.x * s.length);
    let sy = spec_div1000(s.direction.y * s.length);
    let lensq = sx * sx + sy * sy;
    let dot = (p.x - s.origin.x) * sx + (p.y - s.origin.y) * sy;
    let t = if lensq == 0 || dot <= 0 {
        0int
    } else {
        spec_saturate(dot * 1000 / lensq)
    };
    (s.height as int) * t / 1000
}

/// A well-formed cone for composition: positive bounded dimensions.
pub open spec fn cone_ok(c: Cone) -> bool {
    &&& 50_000 <= c.radius <= 600_000
    &&& 0 <= c.height <= 150_000
    &&& 1 <= c.steepness <= 6
    &&& -200_000_000 <= c.center.x <= 200_000_000
    &&& -200_000_000 <= c.center.y <= 200_000_000
}

pub open spec fn slope_ok(s: Slope) -> bool {
    &&& 100_000 <= s.length <= 300_000
    &&& 0 <= s.height <= 300_000
    &&& -1000 <= s.direction.x <= 1000 && -1000 <= s.direction.y <= 1000
    &&& -200_000_000 <= s.origin.x <= 200_000_000 && -200_000_000 <= s.origin.y <= 200_000_000
}

/// Add a cone's contribution to every vertex elevation.
fn add_elevation_cone(elevation: &mut Vec<i64>, points: &Vec<Point>, feature: &Cone)
    requires
        old(elevation)@.len() == points@.len(),
        cone_ok(*feature),
        forall|i: int| 0 <= i < points@.len() ==> in_bound(#[trigger] points@[i]),
        forall|i: int|
            0 <= i < old(elevation)@.len() ==> 0 <= #[trigger] old(elevation)@[i]
                <= 90_000_000,
    ensures
        final(elevation)@.len() == old(elevation)@.len(),
        forall|i: int|
            0 <= i < final(elevation)@.len() ==> #[trigger] final(elevation)@[i] == old(elevation)@[i] + spec_cone_at(*feature, points@[i]),
        forall|i: int|
            0 <= i < final(elevation)@.len() ==> old(elevation)@[i] <= #[trigger] final(elevation)@[i] <= old(elevation)@[i] + 150_000,
{
    let n = elevation.len();
    let mut i: usize = 0;
    while i < n
        invariant
            i <= n,
            n == elevation@.len(),
            points@.len() == n,
            cone_ok(*feature),
            forall|q: int| 0 <= q < points@.len() ==> in_bound(#[trigger] points@[q]),
            forall|q: int|
                i <= q < n ==> #[trigger] elevation@[q] == old(elevation)@[q] && 0 <= elevation@[q]
                    <= 90_000_000,
            forall|q: int|
                0 <= q < i ==> #[trigger] elevation@[q] == old(elevation)@[q] + spec_cone_at(
                    *feature,
                    points@[q],
                ) && old(elevation)@[q] <= elevation@[q] <= old(elevation)@[q] + 150_000,
        decreases n - i,
    {
        let p = points[i];
        proof {
            assert(in_bound(feature.center));
        }
        let dsq = dist_sq(p, feature.center);
        let d = isqrt(dsq as u64) as i64;
        proof {
            lemma_isqrt_unique(dsq as int, d as int);
        }
        let t = saturate(1000 - d * 1000 / feature.radius);
        proof {
            vstd::arithmetic::div_mod::lemma_div_pos_is_pos(d * 1000, feature.radius as int);
        }
        let e = ease_with_power(t, feature.steepness);
        proof {
            assert(0 <= feature.height * e <= 150_000 * 1000) by (nonlinear_arith)
                requires
                    0 <= e <= 1000,
                    0 <= feature.height <= 150_000,
            ;
            assert(0 <= feature.height * e / 1000 <= 150_000) by (nonlinear_arith)
                requires
                    0 <= feature.height * e <= 150_000 * 1000,
            ;
        }
        let add = feature.height * e / 1000;
        let cur = elevation[i];
        elevation.set(i, cur + add);
        i = i + 1;
    }
}

/// Add a slope's contribution to every vertex elevation.
fn add_elevation_slope(elevation: &mut Vec<i64>, points: &Vec<Point>, feature: &Slope)
    requires
        old(elevation)@.len() == points@.len(),
        slope_ok(*feature),
        forall|i: int| 0 <= i < points@.len() ==> in_bound(#[trigger] points@[i]),
        forall|i: int|
            0 <= i < old(elevation)@.len() ==> 0 <= #[trigger] old(elevation)@[i]
                <= 90_000_000,
    ensures
        final(elevation)@.len() == old(elevation)@.len(),
        forall|i: int|
            0 <= i < final(elevation)@.len() ==> #[trigger] final(elevation)@[i] == old(elevation)@[i] + spec_slope_at(*feature, points@[i]),
        forall|i: int|
            0 <= i < final(elevation)@.len() ==> old(elevation)@[i] <= #[trigger] final(elevation)@[i] <= old(elevation)@[i] + 300_000,
{
    proof {
        assert(-300_000 * 1000 <= feature.direction.x * feature.length <= 300_000 * 1000
            && -300_000 * 1000 <= feature.direction.y * feature.length <= 300_000 * 1000)
            by (nonlinear_arith)
            requires
                -1000 <= feature.direction.x <= 1000 && -1000 <= feature.direction.y <= 1000,
                0 <= feature.length <= 300_000,
        ;
    }
    let sx = crate::erosion::div1000(feature.direction.x * feature.length);
    let sy = crate::erosion::div1000(feature.direction.y * feature.length);
    proof {
        lemma_div1000_small(feature.direction.x * feature.length as int, 300_000);
        lemma_div1000_small(feature.direction.y * feature.length as int, 300_000);
        assert(0 <= sx * sx <= 90_000_000_000 && 0 <= sy * sy <= 90_000_000_000)
            by (nonlinear_arith)
            requires
                -300_000 <= sx <= 300_000 && -300_000 <= sy <= 300_000,
        ;
    }
    let lensq = sx * sx + sy * sy;
    let n = elevation.len();
    let mut i: usize = 0;
    while i < n
        invariant
            i <= n,
            n == elevation@.len(),
            points@.len() == n,
            slope_ok(*feature),
            sx == spec_div1000(feature.direction.x * feature.length),
            sy == spec_div1000(feature.direction.y * feature.length),
            -300_000 <= sx <= 300_000 && -300_000 <= sy <= 300_000,
            lensq == sx * sx + sy * sy,
            0 <= lensq <= 180_000_000_000,
            forall|q: int| 0 <= q < points@.len() ==> in_bound(#[trigger] points@[q]),
            forall|q: int|
                i <= q < n ==> #[trigger] elevation@[q] == old(elevation)@[q] && 0 <= elevation@[q]
                    <= 90_000_000,
            forall|q: int|
                0 <= q < i ==> #[trigger] elevation@[q] == old(elevation)@[q] + spec_slope_at(
                    *feature,
                    points@[q],
                ) && old(elevation)@[q] <= elevation@[q] <= old(elevation)@[q] + 300_000,
        decreases n - i,
    {
        let p = points[i];
        let dx = p.x - feature.origin.x;
        let dy = p.y - feature.origin.y;
        proof {
            assert(-1_200_000_000 * 300_000 <= dx * sx <= 1_200_000_000 * 300_000
                && -1_200_000_000 * 300_000 <= dy * sy <= 1_200_000_000 * 300_000)
                by (nonlinear_arith)
                requires
                    -1_200_000_000 <= dx <= 1_200_000_000 && -1_200_000_000 <= dy
                        <= 1_200_000_000,
                    -300_000 <= sx <= 300_000 && -300_000 <= sy <= 300_000,
            ;
        }
        let dot = dx * sx + dy * sy;
        let t: i64;
        if lensq == 0 || dot <= 0 {
            t = 0;
        } else {
            let quo = (dot as i128) * 1000 / (lensq as i128);
            proof {
                vstd::arithmetic::div_mod::lemma_div_pos_is_pos(
                    (dot as int) * 1000,
                    lensq as int,
                );
            }
            let qclamped: i64 = if quo > 1000 {
                1000
            } else {
                quo as i64
            };
            proof {
                vstd::arithmetic::div_mod::lemma_div_is_ordered(
                    (dot as int) * 1000,
                    720_000_000_000_000_000,
                    lensq as int,
                );
            }
            t = qclamped;
            proof {
                assert(t == spec_saturate((dot as int) * 1000 / (lensq as int)));
            }
        }
        proof {
            assert(0 <= feature.height * t <= 300_000 * 1000) by (nonlinear_arith)
                requires
                    0 <= t <= 1000,
                    0 <= feature.height <= 300_000,
            ;
            assert(0 <= feature.height * t / 1000 <= 300_000) by (nonlinear_arith)
                requires
                    0 <= feature.height * t <= 300_000 * 1000,
            ;
        }
        let add = feature.height * t / 1000;
        let cur = elevation[i];
        elevation.set(i, cur + add);
        i = i + 1;
    }
}

/// A floor-divided value keeps the scale of its operand.
proof fn lemma_div1000_small(v: int, bound: int)
    requires
        0 <= bound,
        -1000 * bound <= v <= 1000 * bound,
        bound <= 1_000_000_000,
    ensures
        -bound <= spec_div1000(v) <= bound,
{
    let sh: int = 10_000_000_000_000_000_000_000;
    assert((sh - 1000 * bound) / 1000 == sh / 1000 - bound && (sh + 1000 * bound) / 1000 == sh
        / 1000 + bound) by (nonlinear_arith)
        requires
            0 <= bound <= 1_000_000_000,
    ;
    vstd::arithmetic::div_mod::lemma_div_is_ordered(sh - 1000 * bound, v + sh, 1000);
    vstd::arithmetic::div_mod::lemma_div_is_ordered(v + sh, sh + 1000 * bound, 1000);
}

/// Replace each elevation with its square root (in world units): softens
/// peaks.
pub fn smooth(elevation: &mut Vec<i64>)
    requires
        forall|i: int|
            0 <= i < old(elevation)@.len() ==> 0 <= #[trigger] old(elevation)@[i] <= 90_000_000,
    ensures
        final(elevation)@.len() == old(elevation)@.len(),
        forall|i: int|
            0 <= i < final(elevation)@.len() ==> #[trigger] final(elevation)@[i] == spec_isqrt(
                old(elevation)@[i] * 1000,
            ) && 0 <= final(elevation)@[i] <= 90_000_000,
    {
    let n = elevation.len();
    let mut i: usize = 0;
    while i < n
        invariant
            i <= n,
            n == elevation@.len(),
            forall|q: int|
                i <= q < n ==> #[trigger] elevation@[q] == old(elevation)@[q] && 0 <= elevation@[q]
                    <= 90_000_000,
            forall|q: int|
                0 <= q < i ==> #[trigger] elevation@[q] == spec_isqrt(old(elevation)@[q] * 1000)
                    && 0 <= elevation@[q] <= 90_000_000,
        decreases n - i,
    {
        let e = elevation[i];
        let root = isqrt((e * 1000) as u64) as i64;
        proof {
            lemma_isqrt_unique((e * 1000) as int, root as int);
            assert(root <= 90_000_000) by (nonlinear_arith)
                requires
                    root * root <= 90_000_000_000,
                    0 <= root,
            ;
        }
        elevation.set(i, root);
        i = i + 1;
    }
}

/// Replace each elevation with the mean of its connected neighbors
/// (boundary-adjacent vertices with no neighbors relax to zero).
pub open spec fn spec_relax_at(g: TerrainGraph, elevation: Seq<i64>, v: int) -> int {
    let ns = spec_connected(g.voronoi.halfedges@, v);
    if ns.len() == 0 {
        0
    } else if ns.len() == 1 {
        elevation[ns[0] as int] / 1
    } else if ns.len() == 2 {
        (elevation[ns[0] as int] + elevation[ns[1] as int]) / 2
    } else {
        (elevation[ns[0] as int] + elevation[ns[1] as int] + elevation[ns[2] as int]) / 3
    }
}

pub fn relax(graph: &TerrainGraph, elevation: &mut Vec<i64>)
    requires
        graph.wf(),
        old(elevation)@.len() == graph.nv(),
        forall|i: int|
            0 <= i < old(elevation)@.len() ==> 0 <= #[trigger] old(elevation)@[i] <= 90_000_000,
    ensures
        final(elevation)@.len() == old(elevation)@.len(),
        forall|i: int|
            0 <= i < final(elevation)@.len() ==> #[trigger] final(elevation)@[i] == spec_relax_at(
                *graph,
                old(elevation)@,
                i,
            ) && 0 <= final(elevation)@[i] <= 90_000_000,
{
    let n = elevation.len();
    let mut average: Vec<i64> = Vec::new();
    let mut i: usize = 0;
    while i < n
        invariant
            i <= n,
            graph.wf(),
            n == elevation@.len(),
            elevation@ == old(elevation)@,
            n == graph.nv(),
            forall|q: int|
                0 <= q < n ==> 0 <= #[trigger] elevation@[q] <= 90_000_000,
            average@.len() == i,
            forall|q: int|
                0 <= q < i ==> #[trigger] average@[q] == spec_relax_at(*graph, elevation@, q) && 0
                    <= average@[q] <= 90_000_000,
        decreases n - i,
    {
        let ns = graph.connected_vertices(i);
        let a: i64;
        if ns.len() == 0 {
            a = 0;
        } else if ns.len() == 1 {
            a = elevation[ns[0]];
        } else if ns.len() == 2 {
            a = (elevation[ns[0]] + elevation[ns[1]]) / 2;
        } else {
            a = (elevation[ns[0]] + elevation[ns[1]] + elevation[ns[2]]) / 3;
        }
        proof {
            if ns@.len() >= 1 {
                vstd::arithmetic::div_mod::lemma_div_pos_is_pos(
                    elevation@[ns@[0] as int] as int,
                    1,
                );
            }
        }
        average.push(a);
        i = i + 1;
    }
    let mut i: usize = 0;
    while i < n
        invariant
            i <= n,
            n == elevation@.len(),
            average@.len() == n,
            forall|q: int|
                0 <= q < n ==> #[trigger] average@[q] == spec_relax_at(*graph, old(elevation)@, q)
                    && 0 <= average@[q] <= 90_000_000,
            forall|q: int| i <= q < n ==> #[trigger] elevation@[q] == old(elevation)@[q],
            forall|q: int| 0 <= q < i ==> #[trigger] elevation@[q] == average@[q],
        decreases n - i,
    {
        let v = average[i];
        elevation.set(i, v);
        i = i + 1;
    }
}

/// The scored pairs of an elevation slice: each value tagged with its index.
pub open spec fn spec_pairs(e: Seq<i64>) -> Seq<Entry> {
    Seq::new(e.len(), |i: int| (e[i], i as u64))
}

/// How many values of the slice are at least `m`.
pub open spec fn count_ge(s: Seq<i64>, m: int) -> int
    decreases s.len(),
{
    if s.len() == 0 {
        0
    } else {
        count_ge(s.drop_last(), m) + if s.last() >= m {
            1int
        } else {
            0int
        }
    }
}

/// How many pair scores are at least `m`.
pub open spec fn count_ge_p(s: Seq<Entry>, m: int) -> int
    decreases s.len(),
{
    if s.len() == 0 {
        0
    } else {
        count_ge_p(s.drop_last(), m) + if s.last().0 >= m {
            1int
        } else {
            0int
        }
    }
}

proof fn lemma_count_ge_p_remove(s: Seq<Entry>, i: int, m: int)
    requires
        0 <= i < s.len(),
    ensures
        count_ge_p(s.remove(i), m) == count_ge_p(s, m) - if s[i].0 >= m {
            1int
        } else {
            0int
        },
    decreases s.len(),
{
    if i == s.len() - 1 {
        assert(s.remove(i) =~= s.drop_last());
    } else {
        assert(s.remove(i).drop_last() =~= s.drop_last().remove(i));
        lemma_count_ge_p_remove(s.drop_last(), i, m);
        assert(s.remove(i).last() == s.last());
    }
}

/// Score counts agree on sequences with the same pair multiset.
proof fn lemma_count_ge_p_perm(s1: Seq<Entry>, s2: Seq<Entry>, m: int)
    requires
        s1.to_multiset() == s2.to_multiset(),
    ensures
        count_ge_p(s1, m) == count_ge_p(s2, m),
    decreases s1.len(),
{
    broadcast use vstd::seq_lib::group_to_multiset_ensures;

    if s1.len() == 0 {
        assert(s1.to_multiset().len() == 0);
        assert(s2.to_multiset().len() == s2.len());
        assert(s2.len() == 0);
    } else {
        let x = s1.last();
        assert(s1.to_multiset().count(x) > 0) by {
            assert(s1.contains(x));
        }
        assert(s2.contains(x));
        let j = choose|j: int| 0 <= j < s2.len() && s2[j] == x;
        assert(s1.drop_last() =~= s1.remove(s1.len() - 1));
        assert(s1.drop_last().to_multiset() == s1.to_multiset().remove(x));
        assert(s2.remove(j).to_multiset() == s2.to_multiset().remove(x));
        lemma_count_ge_p_perm(s1.drop_last(), s2.remove(j), m);
        lemma_count_ge_p_remove(s2, j, m);
    }
}

/// Score counts of the pair view match value counts of the slice.
proof fn lemma_count_ge_pairs(e: Seq<i64>, s: Seq<Entry>, m: int)
    requires
        s.len() == e.len(),
        forall|i: int| 0 <= i < s.len() ==> (#[trigger] s[i]).0 == e[i],
    ensures
        count_ge_p(s, m) == count_ge(e, m),
    decreases e.len(),
{
    if e.len() > 0 {
        assert(forall|i: int|
            0 <= i < s.len() - 1 ==> (#[trigger] s.drop_last()[i]).0 == e.drop_last()[i]);
        lemma_count_ge_pairs(e.drop_last(), s.drop_last(), m);
    }
}

/// Shifting every value moves the counting threshold with it.
proof fn lemma_count_ge_shift(olds: Seq<i64>, news: Seq<i64>, m: int)
    requires
        news.len() == olds.len(),
        forall|i: int| 0 <= i < news.len() ==> #[trigger] news[i] == olds[i] - m,
    ensures
        count_ge(news, 0) == count_ge(olds, m),
    decreases olds.len(),
{
    if olds.len() > 0 {
        assert(forall|i: int|
            0 <= i < news.len() - 1 ==> #[trigger] news.drop_last()[i] == olds.drop_last()[i]
                - m);
        lemma_count_ge_shift(olds.drop_last(), news.drop_last(), m);
    }
}

/// In a sequence where exactly the first `k` slots reach the threshold, the
/// count is `k`.
proof fn lemma_count_ge_split(s: Seq<i64>, m: int, k: int)
    requires
        0 <= k <= s.len(),
        forall|i: int| 0 <= i < s.len() ==> ((#[trigger] s[i]) >= m <==> i < k),
    ensures
        count_ge(s, m) == k,
    decreases s.len(),
{
    if s.len() > 0 {
        if k == s.len() {
            lemma_count_ge_split(s.drop_last(), m, k - 1);
        } else {
            lemma_count_ge_split(s.drop_last(), m, k);
        }
    }
}

/// `s` is the tagged values of `e` in descending order, and `m` is the value
/// at the upper middle of that order.
pub open spec fn median_witness(s: Seq<Entry>, e: Seq<i64>, m: i64) -> bool {
    &&& s.len() == e.len()
    &&& s.to_multiset() == spec_pairs(e).to_multiset()
    &&& forall|i: int, j: int| 0 <= i < j < s.len() ==> entry_ge(s[i], s[j])
    &&& m == s[s.len() - 1 - s.len() / 2].0
}

/// Find the median elevation: the value at the upper middle of the sorted
/// order. The witness sequence records the full sorted order of the tagged
/// values.
pub fn median(elevation: &Vec<i64>) -> (m: i64)
    requires
        elevation@.len() >= 1,
        elevation@.len() < 0x1_0000_0000,
    ensures
        exists|s: Seq<Entry>| median_witness(s, elevation@, m),
        exists|i: int| 0 <= i < elevation@.len() && elevation@[i] == m,
{
    broadcast use vstd::multiset::group_multiset_properties;
    broadcast use vstd::seq_lib::group_to_multiset_ensures;

    let n = elevation.len();
    let mut open = PriorityQueue::new();
    let mut i: usize = 0;
    proof {
        assert(spec_pairs(elevation@).take(0) =~= Seq::<Entry>::empty());
        assert(Seq::<Entry>::empty().to_multiset() =~= Multiset::<Entry>::empty());
    }
    while i < n
        invariant
            i <= n,
            n == elevation@.len(),
            n < 0x1_0000_0000,
            open.wf(),
            open@.len() == i,
            open@ == spec_pairs(elevation@).take(i as int).to_multiset(),
        decreases n - i,
    {
        let e = elevation[i];
        open.push(i as u64, e);
        proof {
            assert(spec_pairs(elevation@).take(i + 1).drop_last() =~= spec_pairs(
                elevation@,
            ).take(i as int));
            assert(spec_pairs(elevation@).take(i + 1) =~= spec_pairs(elevation@).take(
                i as int,
            ).push((elevation@[i as int], i as u64)));
            assert(spec_pairs(elevation@).take(i as int).push(
                (elevation@[i as int], i as u64),
            ).to_multiset() == spec_pairs(elevation@).take(i as int).to_multiset().insert(
                (elevation@[i as int], i as u64),
            ));
        }
        i = i + 1;
    }
    proof {
        assert(spec_pairs(elevation@).take(n as int) =~= spec_pairs(elevation@));
    }

    let mut desc: Vec<i64> = Vec::new();
    let ghost mut popped: Seq<Entry> = Seq::empty();
    let mut k: usize = 0;
    while k < n
        invariant
            k <= n,
            n == elevation@.len(),
            open.wf(),
            open@.len() == n - k,
            popped.len() == k,
            desc@.len() == k,
            popped.to_multiset().add(open@) =~= spec_pairs(elevation@).to_multiset(),
            forall|q: int| 0 <= q < k ==> (#[trigger] desc@[q]) == popped[q].0,
            forall|i2: int, j2: int| 0 <= i2 < j2 < k ==> entry_ge(popped[i2], popped[j2]),
            k > 0 ==> forall|x: Entry|
                #[trigger] open@.count(x) > 0 ==> entry_ge(popped[k - 1], x),
        decreases n - k,
    {
        let ghost pre_open = open@;
        let e = open.pop().unwrap();
        desc.push(e.0);
        proof {
            let prev = popped;
            popped = popped.push(e);
            assert(prev.push(e).to_multiset() == prev.to_multiset().insert(e));
            assert(popped.to_multiset() == prev.to_multiset().insert(e));
            assert(popped.to_multiset().add(open@) =~= spec_pairs(elevation@).to_multiset());
            assert forall|i2: int, j2: int|
                0 <= i2 < j2 < k + 1 implies entry_ge(popped[i2], popped[j2]) by {
                if j2 == k as int {
                    assert(pre_open.count(e) > 0);
                    if i2 == k as int - 1 {
                    } else {
                        lemma_entry_order(popped[i2], prev[k - 1], e);
                    }
                } else {
                    assert(popped[i2] == prev[i2] && popped[j2] == prev[j2]);
                }
            }
            assert forall|x: Entry| #[trigger] open@.count(x) > 0 implies entry_ge(
                popped[k as int],
                x,
            ) by {
                assert(pre_open.count(x) > 0);
            }
        }
        k = k + 1;
    }
    proof {
        assert(open@.len() == 0);
        assert(open@ =~= Multiset::<Entry>::empty());
        assert(popped.to_multiset() =~= spec_pairs(elevation@).to_multiset());
        let idx = popped.len() - 1 - popped.len() / 2;
        assert(0 <= idx < popped.len());
        assert(popped.to_multiset().count(popped[idx]) > 0) by {
            assert(popped.contains(popped[idx]));
        }
        assert(spec_pairs(elevation@).contains(popped[idx]));
        let j = choose|j: int|
            0 <= j < spec_pairs(elevation@).len() && spec_pairs(elevation@)[j] == popped[idx];
        assert(elevation@[j] == popped[idx].0);
        assert(median_witness(popped, elevation@, desc@[idx]));
    }
    let mid = n / 2;
    desc[n - 1 - mid]
}

/// Replace each elevation with its difference from the `sealevel` elevation.
pub fn set_sealevel(elevation: &mut Vec<i64>, sealevel: i64)
    requires
        -1_000_000_000 <= sealevel <= 1_000_000_000,
        forall|i: int|
            0 <= i < old(elevation)@.len() ==> -1_000_000_000 <= #[trigger] old(elevation)@[i]
                <= 1_000_000_000,
    ensures
        final(elevation)@.len() == old(elevation)@.len(),
        forall|i: int|
            0 <= i < final(elevation)@.len() ==> #[trigger] final(elevation)@[i] == old(elevation)@[i] - sealevel,
{
    let n = elevation.len();
    let mut i: usize = 0;
    while i < n
        invariant
            i <= n,
            n == elevation@.len(),
            -1_000_000_000 <= sealevel <= 1_000_000_000,
            forall|q: int|
                i <= q < n ==> #[trigger] elevation@[q] == old(elevation)@[q] && -1_000_000_000
                    <= elevation@[q] <= 1_000_000_000,
            forall|q: int|
                0 <= q < i ==> #[trigger] elevation@[q] == old(elevation)@[q] - sealevel,
        decreases n - i,
    {
        let e = elevation[i];
        elevation.set(i, e - sealevel);
        i = i + 1;
    }
}

/// Subtract the median elevation from every vertex, so that the land/water
/// split balances around it.
pub fn set_median_sealevel(elevation: &mut Vec<i64>) -> (m: i64)
    requires
        old(elevation)@.len() >= 1,
        old(elevation)@.len() < 0x1_0000_0000,
        forall|i: int|
            0 <= i < old(elevation)@.len() ==> -1_000_000_000 <= #[trigger] old(elevation)@[i]
                <= 1_000_000_000,
    ensures
        final(elevation)@.len() == old(elevation)@.len(),
        forall|i: int|
            0 <= i < final(elevation)@.len() ==> #[trigger] final(elevation)@[i] == old(elevation)@[i] - m,
        exists|i: int| 0 <= i < old(elevation)@.len() && old(elevation)@[i] == m,
        exists|s: Seq<Entry>| median_witness(s, old(elevation)@, m),
{
    let m = median(elevation);
    proof {
        let i = choose|i: int|
            0 <= i < old(elevation)@.len() && old(elevation)@[i] == m;
    }
    set_sealevel(elevation, m);
    m
}

/// Sea-level balance: after subtracting the median of pairwise-distinct
/// elevations, the counts of vertices at or above zero and below zero differ
/// by at most one.
pub proof fn lemma_sea_level_balance(pre: Seq<i64>, post: Seq<i64>, m: i64, s: Seq<Entry>)
    requires
        pre.len() >= 1,
        post.len() == pre.len(),
        forall|i: int| 0 <= i < post.len() ==> #[trigger] post[i] == pre[i] - m,
        median_witness(s, pre, m),
        forall|i: int, j: int| 0 <= i < j < pre.len() ==> pre[i] != pre[j],
    ensures
        0 <= count_ge(post, 0) - (post.len() - count_ge(post, 0)) <= 1,
{
    broadcast use vstd::seq_lib::group_to_multiset_ensures;

    let n = s.len();
    let idx = n - 1 - n / 2;
    // Pair scores are pairwise distinct, so the sorted order is strict.
    assert forall|i: int, j: int| 0 <= i < j < n implies s[i].0 > s[j].0 by {
        assert(entry_ge(s[i], s[j]));
        if s[i].0 == s[j].0 {
            // Two equal scores would mean two equal values of `pre`.
            assert(s.to_multiset().count(s[i]) > 0) by {
                assert(s.contains(s[i]));
            }
            assert(spec_pairs(pre).contains(s[i]));
            let a = choose|a: int|
                0 <= a < spec_pairs(pre).len() && spec_pairs(pre)[a] == s[i];
            if s[i] == s[j] {
                let strimmed = s.remove(i);
                assert(strimmed[j - 1] == s[j]);
                assert(strimmed.to_multiset() == s.to_multiset().remove(s[i]));
                assert(strimmed.contains(s[j]));
                assert(strimmed.to_multiset().count(s[j]) > 0);
                assert(s.to_multiset().count(s[i]) >= 2);
                assert(spec_pairs(pre).to_multiset().count(s[i]) >= 2);
                let p1 = spec_pairs(pre).remove(a);
                assert(p1.to_multiset() == spec_pairs(pre).to_multiset().remove(s[i]));
                assert(p1.to_multiset().count(s[i]) >= 1);
                assert(p1.contains(s[i]));
                let b0 = choose|b0: int| 0 <= b0 < p1.len() && p1[b0] == s[i];
                let b = if b0 < a {
                    b0
                } else {
                    b0 + 1
                };
                assert(spec_pairs(pre)[b] == s[i] && b != a);
                assert(spec_pairs(pre)[a].1 == a as u64 && spec_pairs(pre)[b].1 == b as u64);
                assert(false);
            } else {
                let b = choose|b: int|
                    0 <= b < spec_pairs(pre).len() && spec_pairs(pre)[b] == s[j];
                assert(s.to_multiset().count(s[j]) > 0) by {
                    assert(s.contains(s[j]));
                }
                assert(spec_pairs(pre).contains(s[j]));
                assert(pre[a] == s[i].0 && pre[b] == s[j].0);
                assert(a != b);
                assert(false);
            }
        }
    }
    let scores = Seq::new(n, |i: int| s[i].0);
    assert forall|i: int| 0 <= i < n implies ((#[trigger] scores[i]) >= m as int <==> i < idx
        + 1) by {
        if i < idx {
            assert(s[i].0 > s[idx].0);
        } else if i > idx {
            assert(s[idx].0 > s[i].0);
        }
    }
    lemma_count_ge_split(scores, m as int, idx + 1);
    assert(forall|i: int| 0 <= i < n ==> (#[trigger] s[i]).0 == scores[i]);
    lemma_count_ge_pairs(scores, s, m as int);
    lemma_count_ge_p_perm(s, spec_pairs(pre), m as int);
    lemma_count_ge_pairs(pre, spec_pairs(pre), m as int);
    lemma_count_ge_shift(pre, post, m as int);
    assert(count_ge(post, 0) == idx + 1);
}

/// `post` is `pre` shifted down by its own median `m`.
pub open spec fn median_shifted(pre: Seq<i64>, m: i64, post: Seq<i64>) -> bool {
    &&& pre.len() == post.len()
    &&& forall|v: int| 0 <= v < post.len() ==> #[trigger] post[v] == pre[v] - m
    &&& exists|s: Seq<Entry>| median_witness(s, pre, m)
}

/// Find the surface normal of each terrain vertex (zero at the boundary).
pub fn generate_normal(graph: &TerrainGraph, elevation: &Vec<i64>) -> (r: Vec<Normal3>)
    requires
        graph.wf(),
        elevation@.len() == graph.nv(),
        forall|v: int|
            0 <= v < elevation@.len() ==> -ELEV_LIMIT <= #[trigger] elevation@[v] <= ELEV_LIMIT,
    ensures
        r@.len() == graph.nv(),
        forall|v: int|
            0 <= v < r@.len() ==> (#[trigger] r@[v]) == spec_normal_at(*graph, elevation@, v),
{
    let nv = graph.vertices.len();
    let mut r: Vec<Normal3> = Vec::new();
    let mut v: usize = 0;
    while v < nv
        invariant
            v <= nv,
            graph.wf(),
            nv == graph.nv(),
            elevation@.len() == nv,
            forall|u: int|
                0 <= u < elevation@.len() ==> -ELEV_LIMIT <= #[trigger] elevation@[u]
                    <= ELEV_LIMIT,
            r@.len() == v,
            forall|u: int|
                0 <= u < v ==> (#[trigger] r@[u]) == spec_normal_at(*graph, elevation@, u),
        decreases nv - v,
    {
        let n: Normal3;
        match graph.interior_connected_vertices(v) {
            None => {
                n = Normal3 { x: 0, y: 0, z: 0 };
            },
            Some((na, nb, nc)) => {
                let a = graph.vertices[na];
                let bpt = graph.vertices[nb];
                let cpt = graph.vertices[nc];
                let ux = bpt.x - a.x;
                let uy = bpt.y - a.y;
                let uz = elevation[nb] - elevation[na];
                let wx = cpt.x - a.x;
                let wy = cpt.y - a.y;
                let wz = elevation[nc] - elevation[na];
                proof {
                    assert(ux * wy <= 4_000_000_000_000_000_000 && ux * wy
                        >= -4_000_000_000_000_000_000 && uy * wx <= 4_000_000_000_000_000_000
                        && uy * wx >= -4_000_000_000_000_000_000 && uy * wz
                        <= 4_000_000_000_000_000_000 && uy * wz >= -4_000_000_000_000_000_000
                        && uz * wy <= 4_000_000_000_000_000_000 && uz * wy
                        >= -4_000_000_000_000_000_000 && uz * wx <= 4_000_000_000_000_000_000
                        && uz * wx >= -4_000_000_000_000_000_000 && ux * wz
                        <= 4_000_000_000_000_000_000 && ux * wz >= -4_000_000_000_000_000_000)
                        by (nonlinear_arith)
                        requires
                            -2_000_000_000 <= ux <= 2_000_000_000,
                            -2_000_000_000 <= uy <= 2_000_000_000,
                            -2_000_000_000 <= wx <= 2_000_000_000,
                            -2_000_000_000 <= wy <= 2_000_000_000,
                            -2_000_000_000 <= uz <= 2_000_000_000,
                            -2_000_000_000 <= wz <= 2_000_000_000,
                    ;
                }
                let nx = crate::erosion::div1000(uy * wz - uz * wy);
                let ny = crate::erosion::div1000(uz * wx - ux * wz);
                let nz = crate::erosion::div1000(ux * wy - uy * wx);
                n = Normal3 { x: nx, y: ny, z: nz };
            },
        }
        proof {
            assert(n == spec_normal_at(*graph, elevation@, v as int));
        }
        r.push(n);
        v = v + 1;
    }
    r
}

/// The frozen hydrology and elevation state, one entry per graph vertex.
#[derive(Debug, Clone)]
pub struct TerrainData {
    /// The elevation of each terrain vertex (sea level is zero).
    pub elevation: Vec<i64>,
    /// The surface normal of each terrain vertex.
    pub normal: Vec<Normal3>,
    /// The flow of water at each terrain vertex, expressed as the index of a
    /// downhill vertex.
    pub flow: Vec<Flow>,
    /// The flux of water at each terrain vertex, in rainfall units.
    pub flux: Vec<u64>,
    /// The erosion scalar at each terrain vertex, in milli-units.
    pub erosion: Vec<i64>,
}

impl TerrainData {
    /// Every per-vertex array lines up with the graph, the flow map drains
    /// without cycles toward the boundary, and flux only grows downstream.
    pub open spec fn wf(self, g: TerrainGraph) -> bool {
        &&& self.elevation@.len() == g.nv()
        &&& self.normal@.len() == g.nv()
        &&& self.flow@.len() == g.nv()
        &&& self.flux@.len() == g.nv()
        &&& self.erosion@.len() == g.nv()
        &&& forall|v: int|
            0 <= v < self.elevation@.len() ==> -ELEV_LIMIT <= (#[trigger] self.elevation@[v])
                <= ELEV_LIMIT
        &&& flow_targets_ok(self.flow@)
        &&& flow_acyclic(self.flow@)
        &&& forall|v: int|
            0 <= v < self.flow@.len() && g.vertex_type@[v] == VertexType::Boundary ==> (
            #[trigger] self.flow@[v]) is None
        &&& forall|v: int| 0 <= v < self.flux@.len() ==> 1 <= #[trigger] self.flux@[v] <= 1 + g.nv()
        &&& forall|v: int|
            0 <= v < self.flow@.len() && (#[trigger] self.flow@[v]) is Some ==> self.flux@[
                self.flow@[v]->0 as int] >= self.flux@[v]
        &&& forall|v: int| 0 <= v < self.erosion@.len() ==> 0 <= #[trigger] self.erosion@[v] <= 20
    }

    /// Bake the features into a height field, run the hydrology passes with
    /// the erosion feedback loop, and balance the sea level at the median.
    pub fn new(graph: &TerrainGraph, features: &TerrainFeatures) -> (r: TerrainData)
        requires
            graph.wf(),
            1 <= graph.nv() < 0x1_0000_0000,
            features.cones@.len() <= 251,
            features.slopes@.len() <= 1,
            forall|j: int| 0 <= j < features.cones@.len() ==> cone_ok(#[trigger] features.cones@[j]),
            forall|j: int|
                0 <= j < features.slopes@.len() ==> slope_ok(#[trigger] features.slopes@[j]),
        ensures
            r.wf(*graph),
            exists|pre: Seq<i64>, m: i64| median_shifted(pre, m, r.elevation@),
    {
        let nv = graph.vertices.len();
        let mut elevation: Vec<i64> = Vec::new();
        let mut i: usize = 0;
        while i < nv
            invariant
                i <= nv,
                elevation@.len() == i,
                forall|q: int| 0 <= q < i ==> (#[trigger] elevation@[q]) == 0,
            decreases nv - i,
        {
            elevation.push(0);
            i = i + 1;
        }

        // Composition: accumulate every feature's contribution.
        let nc = features.cones.len();
        let mut c: usize = 0;
        while c < nc
            invariant
                c <= nc,
                graph.wf(),
                nv == graph.nv(),
                nc == features.cones@.len() <= 251,
                forall|j: int|
                    0 <= j < features.cones@.len() ==> cone_ok(#[trigger] features.cones@[j]),
                elevation@.len() == nv,
                forall|q: int|
                    0 <= q < nv ==> 0 <= #[trigger] elevation@[q] <= 150_000 * c,
            decreases nc - c,
        {
            let cone = features.cones[c];
            add_elevation_cone(&mut elevation, &graph.vertices, &cone);
            c = c + 1;
        }
        let ns = features.slopes.len();
        let mut sl: usize = 0;
        while sl < ns
            invariant
                sl <= ns,
                graph.wf(),
                nv == graph.nv(),
                ns == features.slopes@.len() <= 1,
                forall|j: int|
                    0 <= j < features.slopes@.len() ==> slope_ok(#[trigger] features.slopes@[j]),
                elevation@.len() == nv,
                forall|q: int|
                    0 <= q < nv ==> 0 <= #[trigger] elevation@[q] <= 37_650_000 + 300_000 * sl,
            decreases ns - sl,
        {
            let slope = features.slopes[sl];
            add_elevation_slope(&mut elevation, &graph.vertices, &slope);
            sl = sl + 1;
        }

        // Optional conditioning.
        if features.smooth {
            smooth(&mut elevation);
        }
        if features.relax {
            relax(graph, &mut elevation);
        }

        // Hydrology pass, then the erosion feedback loop: erode, re-route,
        // and erode again.
        let mut flow = generate_flow(graph, &elevation);
        let mut flux = generate_flux(graph, &flow);
        let mut normal = generate_normal(graph, &elevation);
        let mut erosion = generate_erosion(graph, &flux, &elevation);

        let mut it: usize = 0;
        while it < 5
            invariant
                it <= 5,
                graph.wf(),
                1 <= nv == graph.nv() < 0x1_0000_0000,
                elevation@.len() == nv,
                forall|q: int|
                    0 <= q < nv ==> -100_000 * it <= #[trigger] elevation@[q] <= 90_000_000,
                flow@.len() == nv,
                flow_targets_ok(flow@),
                flow_acyclic(flow@),
                forall|v: int|
                    0 <= v < flow@.len() && graph.vertex_type@[v] == VertexType::Boundary ==> (
                    #[trigger] flow@[v]) is None,
                flux@.len() == nv,
                forall|v: int| 0 <= v < flux@.len() ==> 1 <= #[trigger] flux@[v] <= 1 + nv,
                forall|v: int|
                    0 <= v < flow@.len() && (#[trigger] flow@[v]) is Some ==> flux@[flow@[v]->0
                        as int] >= flux@[v],
                normal@.len() == nv,
                erosion@.len() == nv,
                forall|v: int| 0 <= v < erosion@.len() ==> 0 <= #[trigger] erosion@[v] <= 20,
            decreases 5 - it,
        {
            erode(&mut elevation, &erosion, 500);
            flow = generate_flow(graph, &elevation);
            flux = generate_flux(graph, &flow);
            normal = generate_normal(graph, &elevation);
            erosion = generate_erosion(graph, &flux, &elevation);
            it = it + 1;
        }

        // Balance land and water around the median elevation.
        let ghost pre_median = elevation@;
        let m = set_median_sealevel(&mut elevation);
        proof {
            let i = choose|i: int| 0 <= i < pre_median.len() && pre_median[i] == m;
            assert(-500_000 <= m <= 90_000_000);
        }

        let r = TerrainData { elevation, normal, flow, flux, erosion };
        proof {
            assert(r.wf(*graph));
            assert(median_shifted(pre_median, m, r.elevation@));
        }
        r
    }
}

} // verus!
