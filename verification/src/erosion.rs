use vstd::prelude::*;

use crate::priority_index::{entry_ge, Entry, PriorityQueue};
use vstd::multiset::Multiset;
use crate::terrain_graph::{spec_connected, TerrainGraph, VertexType};
use crate::voronoi::EMPTY;

verus! {

broadcast use vstd::multiset::group_multiset_properties;

/// The flow of water at a vertex: the index of the downhill vertex its water
/// continues to, or `None` at a terminal (boundary or unreached) vertex.
pub type Flow = Option<usize>;

/// Magnitude cap on elevations, in milli-units.
pub const ELEV_BOUND: i64 = 1_000_000_000_000;

/// Flow targets stay inside the vertex range.
pub open spec fn flow_targets_ok(flow: Seq<Flow>) -> bool {
    forall|v: int| 0 <= v < flow.len() && (#[trigger] flow[v]) is Some ==> flow[v]->0 < flow.len()
}

/// A ranking witnesses that the flow map has no cycles: every step strictly
/// descends.
pub open spec fn flow_ranked(flow: Seq<Flow>, rank: Seq<int>) -> bool {
    &&& rank.len() == flow.len()
    &&& forall|v: int| 0 <= v < rank.len() ==> 0 <= (#[trigger] rank[v]) < rank.len()
    &&& forall|v: int|
        0 <= v < flow.len() && (#[trigger] flow[v]) is Some ==> rank[flow[v]->0 as int] < rank[v]
}

pub open spec fn flow_acyclic(flow: Seq<Flow>) -> bool {
    exists|rank: Seq<int>| flow_ranked(flow, rank)
}

/// Walking the flow map from `v` reaches a terminal within `fuel` steps.
pub open spec fn flow_reaches_none(flow: Seq<Flow>, v: int, fuel: nat) -> bool
    decreases fuel,
{
    if !(0 <= v < flow.len()) {
        false
    } else if flow[v] is None {
        true
    } else if fuel == 0 {
        false
    } else {
        flow_reaches_none(flow, flow[v]->0 as int, (fuel - 1) as nat)
    }
}

proof fn lemma_reaches_monotone(flow: Seq<Flow>, v: int, fuel: nat, more: nat)
    requires
        flow_reaches_none(flow, v, fuel),
        fuel <= more,
    ensures
        flow_reaches_none(flow, v, more),
    decreases fuel,
{
    if flow[v] is Some {
        lemma_reaches_monotone(flow, flow[v]->0 as int, (fuel - 1) as nat, (more - 1) as nat);
    }
}

proof fn lemma_ranked_reaches(flow: Seq<Flow>, rank: Seq<int>, v: int)
    requires
        flow_ranked(flow, rank),
        flow_targets_ok(flow),
        0 <= v < flow.len(),
    ensures
        flow_reaches_none(flow, v, (rank[v] + 1) as nat),
    decreases rank[v] + 1,
{
    if flow[v] is Some {
        let u = flow[v]->0 as int;
        lemma_ranked_reaches(flow, rank, u);
        lemma_reaches_monotone(flow, u, (rank[u] + 1) as nat, rank[v] as nat);
    }
}

/// Flow acyclicity: from any vertex, following the flow-target chain reaches
/// a terminal within the vertex count; the flow map has no cycles.
pub proof fn lemma_flow_terminates(flow: Seq<Flow>, v: int)
    requires
        flow_acyclic(flow),
        flow_targets_ok(flow),
        0 <= v < flow.len(),
    ensures
        flow_reaches_none(flow, v, flow.len()),
{
    let rank = choose|rank: Seq<int>| flow_ranked(flow, rank);
    lemma_ranked_reaches(flow, rank, v);
    lemma_reaches_monotone(flow, v, (rank[v] + 1) as nat, flow.len());
}

/// The vertex reached after `k` flow steps from `v` (stopping at a
/// terminal).
pub open spec fn chain_at(flow: Seq<Flow>, v: int, k: nat) -> int
    decreases k,
{
    if k == 0 || !(0 <= v < flow.len()) {
        v
    } else if flow[v] is Some {
        chain_at(flow, flow[v]->0 as int, (k - 1) as nat)
    } else {
        v
    }
}

/// Flux conservation along chains: when flux never drops across a single
/// flow edge, any vertex downstream of `v` collects at least as much flux
/// as `v` itself.
pub proof fn lemma_flux_monotone_chain(flow: Seq<Flow>, flux: Seq<u64>, v: int, k: nat)
    requires
        flux.len() == flow.len(),
        flow_targets_ok(flow),
        0 <= v < flow.len(),
        forall|u: int|
            0 <= u < flow.len() && (#[trigger] flow[u]) is Some ==> flux[flow[u]->0 as int]
                >= flux[u],
    ensures
        0 <= chain_at(flow, v, k) < flow.len(),
        flux[chain_at(flow, v, k)] >= flux[v],
    decreases k,
{
    if k > 0 && flow[v] is Some {
        lemma_flux_monotone_chain(flow, flux, flow[v]->0 as int, (k - 1) as nat);
    }
}

/// The walk from `u` (which the walk itself visits first) meets `x` within
/// `fuel` steps.
pub open spec fn chain_visits(flow: Seq<Flow>, u: int, x: int, fuel: nat) -> bool
    decreases fuel,
{
    if !(0 <= u < flow.len()) {
        false
    } else if u == x {
        true
    } else if flow[u] is None {
        false
    } else if fuel == 0 {
        false
    } else {
        chain_visits(flow, flow[u]->0 as int, x, (fuel - 1) as nat)
    }
}

proof fn lemma_chain_visits_monotone(flow: Seq<Flow>, u: int, x: int, fuel: nat, more: nat)
    requires
        chain_visits(flow, u, x, fuel),
        fuel <= more,
    ensures
        chain_visits(flow, u, x, more),
    decreases fuel,
{
    if u != x && flow[u] is Some {
        lemma_chain_visits_monotone(flow, flow[u]->0 as int, x, (fuel - 1) as nat, (more
            - 1) as nat);
    }
}

/// The ranking bounds the fuel any visit needs.
proof fn lemma_chain_visits_rank(flow: Seq<Flow>, rank: Seq<int>, u: int, x: int, fuel: nat)
    requires
        flow_ranked(flow, rank),
        flow_targets_ok(flow),
        chain_visits(flow, u, x, fuel),
    ensures
        chain_visits(flow, u, x, (rank[u] + 1) as nat),
    decreases fuel,
{
    if u != x && flow[u] is Some && fuel > 0 {
        let u2 = flow[u]->0 as int;
        lemma_chain_visits_rank(flow, rank, u2, x, (fuel - 1) as nat);
        lemma_chain_visits_monotone(flow, u2, x, (rank[u2] + 1) as nat, rank[u] as nat);
    }
}

/// How many of the vertices `ws` have a flow chain meeting `v`.
pub open spec fn upstream_count(flow: Seq<Flow>, ws: Seq<usize>, v: int) -> int
    decreases ws.len(),
{
    if ws.len() == 0 {
        0
    } else {
        upstream_count(flow, ws.drop_last(), v) + if chain_visits(
            flow,
            ws.last() as int,
            v,
            flow.len(),
        ) {
            1int
        } else {
            0int
        }
    }
}

proof fn lemma_upstream_count_bound(flow: Seq<Flow>, ws: Seq<usize>, v: int)
    ensures
        0 <= upstream_count(flow, ws, v) <= ws.len(),
    decreases ws.len(),
{
    if ws.len() > 0 {
        lemma_upstream_count_bound(flow, ws.drop_last(), v);
    }
}

/// How many vertices are still unseen.
pub open spec fn count_false(s: Seq<bool>) -> nat
    decreases s.len(),
{
    if s.len() == 0 {
        0
    } else {
        count_false(s.drop_last()) + if s.last() {
            0nat
        } else {
            1nat
        }
    }
}

proof fn lemma_count_false_update(s: Seq<bool>, i: int)
    requires
        0 <= i < s.len(),
        !s[i],
    ensures
        count_false(s) >= 1,
        count_false(s.update(i, true)) == count_false(s) - 1,
    decreases s.len(),
{
    if i == s.len() - 1 {
        assert(s.update(i, true).drop_last() =~= s.drop_last());
    } else {
        assert(s.update(i, true).drop_last() =~= s.drop_last().update(i, true));
        lemma_count_false_update(s.drop_last(), i);
    }
}

/// The frontier vertex the flood settles next: lowest elevation first, ties
/// to the largest index (the queue's order on (-elevation, vertex) entries).
pub open spec fn sel_ok(elevation: Seq<i64>, frontier: Set<int>, v: int) -> bool {
    &&& frontier.contains(v)
    &&& forall|u: int|
        #[trigger] frontier.contains(u) ==> elevation[u] > elevation[v] || (elevation[u]
            == elevation[v] && u <= v)
}

pub open spec fn spec_sel(elevation: Seq<i64>, frontier: Set<int>) -> int {
    choose|v: int| sel_ok(elevation, frontier, v)
}

proof fn lemma_sel_exists(elevation: Seq<i64>, frontier: Set<int>)
    requires
        frontier.finite(),
        frontier.len() > 0,
    ensures
        sel_ok(elevation, frontier, spec_sel(elevation, frontier)),
    decreases frontier.len(),
{
    let a = frontier.choose();
    assert(frontier.contains(a));
    let rest = frontier.remove(a);
    if rest.len() == 0 {
        rest.lemma_len0_is_empty();
        assert forall|u: int| #[trigger] frontier.contains(u) implies elevation[u] > elevation[a]
            || (elevation[u] == elevation[a] && u <= a) by {
            if u != a {
                assert(rest.contains(u));
            }
        }
        assert(sel_ok(elevation, frontier, a));
    } else {
        lemma_sel_exists(elevation, rest);
        let b = spec_sel(elevation, rest);
        let best: int = if elevation[a] < elevation[b] || (elevation[a] == elevation[b] && b
            < a) {
            a
        } else {
            b
        };
        assert forall|u: int| #[trigger] frontier.contains(u) implies elevation[u]
            > elevation[best] || (elevation[u] == elevation[best] && u <= best) by {
            if u != a {
                assert(rest.contains(u));
            }
        }
        assert(sel_ok(elevation, frontier, best));
    }
    let w = choose|v: int| sel_ok(elevation, frontier, v);
    assert(sel_ok(elevation, frontier, w));
}

/// The selection is the unique extremal frontier vertex.
proof fn lemma_sel_is(elevation: Seq<i64>, frontier: Set<int>, v: int)
    requires
        sel_ok(elevation, frontier, v),
    ensures
        v == spec_sel(elevation, frontier),
{
    let w = choose|u: int| sel_ok(elevation, frontier, u);
    assert(sel_ok(elevation, frontier, w));
    assert(frontier.contains(v) && frontier.contains(w));
}

/// One settled vertex drains its unseen neighbors in order: each joins the
/// frontier, is marked seen, and takes the settled vertex as flow target.
pub open spec fn spec_drain_ns(
    he: Seq<usize>,
    ns: Seq<usize>,
    k: nat,
    frontier: Set<int>,
    seen: Seq<bool>,
    flow: Seq<Flow>,
    next: usize,
) -> (Set<int>, Seq<bool>, Seq<Flow>)
    decreases ns.len() - k,
{
    if k >= ns.len() {
        (frontier, seen, flow)
    } else {
        let w = ns[k as int] as int;
        if seen[w] {
            spec_drain_ns(he, ns, (k + 1) as nat, frontier, seen, flow, next)
        } else {
            spec_drain_ns(
                he,
                ns,
                (k + 1) as nat,
                frontier.insert(w),
                seen.update(w, true),
                flow.update(w, Some(next)),
                next,
            )
        }
    }
}

proof fn lemma_drain_ns_props(
    he: Seq<usize>,
    ns: Seq<usize>,
    k: nat,
    frontier: Set<int>,
    seen: Seq<bool>,
    flow: Seq<Flow>,
    next: usize,
)
    requires
        k <= ns.len(),
        frontier.finite(),
        seen.len() == flow.len(),
        forall|j: int| 0 <= j < ns.len() ==> (ns[j] as int) < seen.len(),
        forall|v: int| #[trigger] frontier.contains(v) ==> 0 <= v < seen.len(),
    ensures
        spec_drain_ns(he, ns, k, frontier, seen, flow, next).0.finite(),
        spec_drain_ns(he, ns, k, frontier, seen, flow, next).0.len() + 4 * count_false(
            spec_drain_ns(he, ns, k, frontier, seen, flow, next).1,
        ) <= frontier.len() + 4 * count_false(seen),
        spec_drain_ns(he, ns, k, frontier, seen, flow, next).1.len() == seen.len(),
        spec_drain_ns(he, ns, k, frontier, seen, flow, next).2.len() == flow.len(),
        forall|v: int|
            #[trigger] spec_drain_ns(he, ns, k, frontier, seen, flow, next).0.contains(v) ==> 0
                <= v < seen.len(),
    decreases ns.len() - k,
{
    if k < ns.len() {
        let w = ns[k as int] as int;
        if seen[w] {
            lemma_drain_ns_props(he, ns, (k + 1) as nat, frontier, seen, flow, next);
        } else {
            lemma_count_false_update(seen, w);
            lemma_drain_ns_props(
                he,
                ns,
                (k + 1) as nat,
                frontier.insert(w),
                seen.update(w, true),
                flow.update(w, Some(next)),
                next,
            );
        }
    }
}

/// The whole flood from a frontier state: settle the extremal vertex, drain
/// its neighbors, and continue until the frontier is exhausted. Defensive
/// branches keep the recursion total; they are never taken from the states
/// the generator produces.
pub open spec fn spec_flood(
    he: Seq<usize>,
    elevation: Seq<i64>,
    frontier: Set<int>,
    seen: Seq<bool>,
    flow: Seq<Flow>,
) -> Seq<Flow>
    decreases frontier.len() + 4 * count_false(seen),
    via spec_flood_decreases
{
    if !frontier.finite() || frontier.len() == 0 {
        flow
    } else {
        let v = spec_sel(elevation, frontier);
        if !frontier.contains(v) || !(0 <= v < seen.len() && seen.len() == flow.len()) {
            flow
        } else {
            let ns = spec_connected(he, v);
            if exists|j: int| 0 <= j < ns.len() && (ns[j] as int) >= seen.len() {
                flow
            } else if exists|u: int| frontier.contains(u) && !(0 <= u < seen.len()) {
                flow
            } else {
                let st = spec_drain_ns(he, ns, 0, frontier.remove(v), seen, flow, v as usize);
                spec_flood(he, elevation, st.0, st.1, st.2)
            }
        }
    }
}

#[via_fn]
proof fn spec_flood_decreases(
    he: Seq<usize>,
    elevation: Seq<i64>,
    frontier: Set<int>,
    seen: Seq<bool>,
    flow: Seq<Flow>,
) {
    if frontier.finite() && frontier.len() > 0 {
        let v = spec_sel(elevation, frontier);
        if frontier.contains(v) && 0 <= v < seen.len() && seen.len() == flow.len() {
            let ns = spec_connected(he, v);
            if !(exists|j: int| 0 <= j < ns.len() && (ns[j] as int) >= seen.len()) && !(
            exists|u: int| frontier.contains(u) && !(0 <= u < seen.len())) {
                assert(forall|j: int| 0 <= j < ns.len() ==> (ns[j] as int) < seen.len());
                assert(forall|u: int|
                    #[trigger] frontier.remove(v).contains(u) ==> 0 <= u < seen.len());
                lemma_drain_ns_props(he, ns, 0, frontier.remove(v), seen, flow, v as usize);
                assert(frontier.remove(v).len() == frontier.len() - 1);
            }
        }
    }
}

/// The marks the boundary seeding leaves: exactly the boundary vertices.
pub open spec fn spec_flow_seeded_seen(boundary: Seq<usize>, nv: nat) -> Seq<bool> {
    Seq::new(nv, |v: int| boundary.contains(v as usize))
}

/// The frontier the boundary seeding leaves.
pub open spec fn spec_flow_frontier(boundary: Seq<usize>, nv: nat) -> Set<int> {
    Set::new(|v: int| 0 <= v < nv && boundary.contains(v as usize))
}

/// The flow map as a function of the half-edge table, the boundary list and
/// the elevations: the priority flood run to completion.
pub open spec fn spec_flow(
    he: Seq<usize>,
    boundary: Seq<usize>,
    elevation: Seq<i64>,
    nv: nat,
) -> Seq<Flow> {
    spec_flood(
        he,
        elevation,
        spec_flow_frontier(boundary, nv),
        spec_flow_seeded_seen(boundary, nv),
        Seq::new(nv, |v: int| None::<usize>),
    )
}

/// The canonical queue entry of a frontier vertex.
pub open spec fn flow_entry(elevation: Seq<i64>, v: int) -> Entry {
    (((-elevation[v]) as i64), v as u64)
}

/// The open queue holds exactly one canonical entry per frontier vertex.
pub open spec fn queue_matches(elevation: Seq<i64>, frontier: Set<int>, m: Multiset<Entry>) -> bool {
    &&& forall|v: int|
        #[trigger] frontier.contains(v) ==> 0 <= v < elevation.len() && m.count(
            flow_entry(elevation, v),
        ) >= 1
    &&& forall|e: Entry|
        #[trigger] m.count(e) > 0 ==> frontier.contains(e.1 as int) && e == flow_entry(
            elevation,
            e.1 as int,
        )
    &&& forall|e: Entry| #[trigger] m.count(e) <= 1
}

/// The maximal queue entry names the flood's selected vertex.
proof fn lemma_pop_is_sel(elevation: Seq<i64>, frontier: Set<int>, m: Multiset<Entry>, e: Entry)
    requires
        queue_matches(elevation, frontier, m),
        elevation.len() <= 0x1_0000_0000,
        m.count(e) > 0,
        forall|x: Entry| #[trigger] m.count(x) > 0 ==> entry_ge(e, x),
        forall|i: int|
            0 <= i < elevation.len() ==> -ELEV_BOUND <= #[trigger] elevation[i] <= ELEV_BOUND,
    ensures
        frontier.contains(e.1 as int),
        e == flow_entry(elevation, e.1 as int),
        e.1 as int == spec_sel(elevation, frontier),
{
    let v = e.1 as int;
    assert(frontier.contains(v) && e == flow_entry(elevation, v));
    assert(0 <= v < elevation.len());
    assert forall|u: int| #[trigger] frontier.contains(u) implies elevation[u] > elevation[v] || (
    elevation[u] == elevation[v] && u <= v) by {
        assert(m.count(flow_entry(elevation, u)) >= 1);
        assert(entry_ge(e, flow_entry(elevation, u)));
        assert(e.0 == (-elevation[v]) as i64 && e.1 == v as u64);
        assert(flow_entry(elevation, u).0 == (-elevation[u]) as i64 && flow_entry(
            elevation,
            u,
        ).1 == u as u64);
        assert(0 <= u < elevation.len());
        if e.0 > flow_entry(elevation, u).0 {
            assert(-elevation[v] > -elevation[u]);
        } else {
            assert(-elevation[v] == -elevation[u] && v as u64 >= u as u64);
            assert(u <= v);
        }
    }
    assert(sel_ok(elevation, frontier, v));
    lemma_sel_is(elevation, frontier, v);
}

/// Removing a popped entry keeps the queue matched to the shrunk frontier.
proof fn lemma_queue_matches_remove(
    elevation: Seq<i64>,
    frontier: Set<int>,
    m: Multiset<Entry>,
    e: Entry,
)
    requires
        queue_matches(elevation, frontier, m),
        elevation.len() <= 0x1_0000_0000,
        m.count(e) > 0,
    ensures
        queue_matches(elevation, frontier.remove(e.1 as int), m.remove(e)),
{
    let v = e.1 as int;
    assert(frontier.contains(v) && e == flow_entry(elevation, v));
    let f2 = frontier.remove(v);
    let m2 = m.remove(e);
    assert forall|u: int| #[trigger] f2.contains(u) implies 0 <= u < elevation.len() && m2.count(
        flow_entry(elevation, u),
    ) >= 1 by {
        assert(frontier.contains(u));
        assert(flow_entry(elevation, u).1 == u as u64);
        assert(u != v && 0 <= u && 0 <= v);
        assert(u as u64 != v as u64);
        assert(e == flow_entry(elevation, v));
        assert(e.1 == v as u64);
        assert(flow_entry(elevation, u) != e);
    }
    assert forall|x: Entry| #[trigger] m2.count(x) > 0 implies f2.contains(x.1 as int) && x
        == flow_entry(elevation, x.1 as int) by {
        assert(m.count(x) > 0);
        if x.1 as int == v {
            assert(x == flow_entry(elevation, v));
            assert(x == e);
            assert(m.count(e) <= 1);
        }
    }
}

/// Pushing a fresh vertex's entry keeps the queue matched to the grown
/// frontier.
proof fn lemma_queue_matches_insert(
    elevation: Seq<i64>,
    frontier: Set<int>,
    m: Multiset<Entry>,
    w: int,
)
    requires
        queue_matches(elevation, frontier, m),
        elevation.len() <= 0x1_0000_0000,
        0 <= w < elevation.len(),
        !frontier.contains(w),
    ensures
        queue_matches(
            elevation,
            frontier.insert(w),
            m.insert(flow_entry(elevation, w)),
        ),
{
    let f2 = frontier.insert(w);
    let m2 = m.insert(flow_entry(elevation, w));
    assert(m.count(flow_entry(elevation, w)) == 0) by {
        if m.count(flow_entry(elevation, w)) > 0 {
            assert(flow_entry(elevation, w).1 == w as u64);
            assert(flow_entry(elevation, w).1 as int == w);
            assert(frontier.contains(flow_entry(elevation, w).1 as int));
        }
    }
    assert forall|u: int| #[trigger] f2.contains(u) implies 0 <= u < elevation.len() && m2.count(
        flow_entry(elevation, u),
    ) >= 1 by {
        if u != w {
            assert(frontier.contains(u));
            assert(m.count(flow_entry(elevation, u)) >= 1);
        } else {
            assert(m2.count(flow_entry(elevation, w)) == m.count(flow_entry(elevation, w)) + 1);
        }
    }
    assert forall|x: Entry| #[trigger] m2.count(x) > 0 implies f2.contains(x.1 as int) && x
        == flow_entry(elevation, x.1 as int) by {
        if x != flow_entry(elevation, w) {
            assert(m.count(x) > 0);
        } else {
            assert(flow_entry(elevation, w).1 as int == w);
        }
    }
    assert forall|x: Entry| #[trigger] m2.count(x) <= 1 by {
        if x == flow_entry(elevation, w) {
            assert(m.count(x) == 0);
        }
    }
}

/// A uniform elevation shift never changes the flood: the selection order
/// compares elevations only, and everything after the selection never reads
/// them.
pub proof fn lemma_flood_shift(
    he: Seq<usize>,
    e1: Seq<i64>,
    e2: Seq<i64>,
    frontier: Set<int>,
    seen: Seq<bool>,
    flow: Seq<Flow>,
    c: int,
)
    requires
        e1.len() == e2.len(),
        seen.len() == e1.len(),
        forall|i: int| 0 <= i < e1.len() ==> #[trigger] e2[i] == e1[i] + c,
    ensures
        spec_flood(he, e2, frontier, seen, flow) == spec_flood(he, e1, frontier, seen, flow),
    decreases frontier.len() + 4 * count_false(seen),
{
    if frontier.finite() && frontier.len() > 0 {
        if exists|u: int| frontier.contains(u) && !(0 <= u < seen.len()) {
            // Both runs fall into a defensive branch and return the flow
            // unchanged: the live branch explicitly excludes this state.
        } else {
            lemma_sel_exists(e1, frontier);
            let v = spec_sel(e1, frontier);
            assert forall|u: int| #[trigger] frontier.contains(u) implies e2[u] > e2[v] || (e2[u]
                == e2[v] && u <= v) by {
                assert(e1[u] > e1[v] || (e1[u] == e1[v] && u <= v));
            }
            assert(sel_ok(e2, frontier, v));
            lemma_sel_is(e2, frontier, v);
            assert(spec_sel(e2, frontier) == v);
            if 0 <= v < seen.len() && seen.len() == flow.len() {
                let ns = spec_connected(he, v);
                if !(exists|j: int| 0 <= j < ns.len() && (ns[j] as int) >= seen.len()) {
                    assert(forall|u: int|
                        #[trigger] frontier.remove(v).contains(u) ==> 0 <= u < seen.len());
                    lemma_drain_ns_props(he, ns, 0, frontier.remove(v), seen, flow, v as usize);
                    let st = spec_drain_ns(he, ns, 0, frontier.remove(v), seen, flow, v as usize);
                    assert(frontier.remove(v).len() == frontier.len() - 1);
                    lemma_flood_shift(he, e1, e2, st.0, st.1, st.2, c);
                }
            }
        }
    }
}

/// Shift invariance at the seeded state: the flow of a uniformly shifted
/// elevation field equals the flow of the original.
pub proof fn lemma_flow_shift_invariant(
    he: Seq<usize>,
    boundary: Seq<usize>,
    e1: Seq<i64>,
    e2: Seq<i64>,
    c: int,
    nv: nat,
)
    requires
        e1.len() == nv,
        e2.len() == nv,
        forall|i: int| 0 <= i < e1.len() ==> #[trigger] e2[i] == e1[i] + c,
    ensures
        spec_flow(he, boundary, e2, nv) == spec_flow(he, boundary, e1, nv),
{
    lemma_flood_shift(
        he,
        e1,
        e2,
        spec_flow_frontier(boundary, nv),
        spec_flow_seeded_seen(boundary, nv),
        Seq::new(nv, |v: int| None::<usize>),
        c,
    );
}

/// Generate the flow map of the terrain vertices by a priority flood: seed
/// the open queue with all boundary vertices, keyed so that the lowest
/// elevation is popped first, and drain each newly met vertex toward the
/// vertex that reached it. Unreached vertices (none, on a sound graph) stay
/// terminal.
#[verifier::rlimit(100)]
pub fn generate_flow(graph: &TerrainGraph, elevation: &Vec<i64>) -> (flow: Vec<Flow>)
    requires
        graph.wf(),
        elevation@.len() == graph.nv(),
        graph.nv() < 0x1_0000_0000,
        forall|v: int|
            0 <= v < elevation@.len() ==> -ELEV_BOUND <= #[trigger] elevation@[v] <= ELEV_BOUND,
    ensures
        flow@.len() == graph.nv(),
        flow@ == spec_flow(
            graph.voronoi.halfedges@,
            graph.boundary@,
            elevation@,
            graph.nv() as nat,
        ),
        flow_targets_ok(flow@),
        flow_acyclic(flow@),
        forall|v: int|
            0 <= v < flow@.len() && graph.vertex_type@[v] == VertexType::Boundary ==> (
            #[trigger] flow@[v]) is None,
        forall|v: int|
            0 <= v < flow@.len() && (#[trigger] flow@[v]) is Some ==> spec_connected(
                graph.voronoi.halfedges@,
                flow@[v]->0 as int,
            ).contains(v as usize),
        // The settled region is closed under adjacency: every neighbor of a
        // boundary or drained vertex is boundary or drained.
        forall|v: int, k: int|
            0 <= v < flow@.len() && (graph.vertex_type@[v] == VertexType::Boundary
                || flow@[v] is Some) && 0 <= k < spec_connected(
                graph.voronoi.halfedges@,
                v,
            ).len() ==> {
                let w = (#[trigger] spec_connected(graph.voronoi.halfedges@, v)[k]) as int;
                graph.vertex_type@[w] == VertexType::Boundary || flow@[w] is Some
            },
{
    let nv = graph.vertices.len();
    let mut flow: Vec<Flow> = Vec::new();
    let mut seen: Vec<bool> = Vec::new();
    let mut i: usize = 0;
    while i < nv
        invariant
            i <= nv,
            flow@.len() == i,
            seen@.len() == i,
            forall|v: int| 0 <= v < i ==> (#[trigger] flow@[v]) is None,
            forall|v: int| 0 <= v < i ==> (#[trigger] seen@[v]) == false,
            count_false(seen@) == i,
        decreases nv - i,
    {
        flow.push(None);
        let ghost pre = seen@;
        seen.push(false);
        proof {
            assert(seen@.drop_last() =~= pre);
        }
        i = i + 1;
    }

    let mut open = PriorityQueue::new();
    let ghost mut rank: Seq<int> = Seq::new(nv as nat, |v: int| 0);
    let ghost mut counter: int = 0;
    let ghost mut frontier: Set<int> = Set::empty();

    // Seed with the boundary vertices, lowest elevation first.
    let nb = graph.boundary.len();
    let mut b: usize = 0;
    while b < nb
        invariant
            b <= nb,
            graph.wf(),
            nv == graph.nv(),
            nb == graph.boundary@.len(),
            elevation@.len() == nv,
            forall|v: int|
                0 <= v < elevation@.len() ==> -ELEV_BOUND <= #[trigger] elevation@[v]
                    <= ELEV_BOUND,
            nv < 0x1_0000_0000,
            flow@.len() == nv && seen@.len() == nv,
            rank.len() == nv,
            0 <= counter <= nv,
            counter + count_false(seen@) == nv,
            open@.len() <= counter,
            open.wf(),
            forall|v: int| 0 <= v < nv ==> (#[trigger] flow@[v]) is None,
            forall|v: int| 0 <= v < rank.len() ==> 0 <= (#[trigger] rank[v]) < nv,
            forall|v: int|
                0 <= v < nv && #[trigger] seen@[v] ==> rank[v] < counter
                    && graph.vertex_type@[v] == VertexType::Boundary,
            forall|e: Entry| #[trigger] open@.count(e) > 0 ==> 0 <= e.1 < nv && seen@[e.1 as int],
            forall|j: int| 0 <= j < b ==> seen@[graph.boundary@[j] as int],
            forall|v: int|
                0 <= v < nv && #[trigger] seen@[v] ==> open@.count(
                    ((-elevation@[v]) as i64, v as u64),
                ) > 0,
            frontier.finite(),
            forall|v: int| #[trigger] frontier.contains(v) <==> (0 <= v < nv && seen@[v as int]),
            queue_matches(elevation@, frontier, open@),
            forall|v: int|
                0 <= v < nv ==> ((#[trigger] seen@[v]) <==> exists|j: int|
                    0 <= j < b && graph.boundary@[j] == v),
        decreases nb - b,
    {
        let v = graph.boundary[b];
        proof {
            assert(graph.boundary@[b as int] < nv);
        }
        if !seen[v] {
            proof {
                lemma_count_false_update(seen@, v as int);
                lemma_queue_matches_insert(elevation@, frontier, open@, v as int);
            }
            open.push(v as u64, -elevation[v]);
            seen.set(v, true);
            proof {
                rank = rank.update(v as int, counter);
                counter = counter + 1;
                frontier = frontier.insert(v as int);
                assert((((-elevation@[v as int]) as i64), v as u64) == flow_entry(
                    elevation@,
                    v as int,
                ));
                assert(queue_matches(elevation@, frontier, open@));
            }
        }
        b = b + 1;
    }
    proof {
        // The seeded state is exactly the flood's starting state.
        let he = graph.voronoi.halfedges@;
        assert(frontier =~= spec_flow_frontier(graph.boundary@, nv as nat)) by {
            assert forall|v: int| #[trigger] frontier.contains(v) implies spec_flow_frontier(
                graph.boundary@,
                nv as nat,
            ).contains(v) by {
                assert(seen@[v]);
                let j = choose|j: int| 0 <= j < nb && graph.boundary@[j] == v;
                assert(graph.boundary@[j] == v as usize);
            }
            assert forall|v: int| #[trigger] spec_flow_frontier(
                graph.boundary@,
                nv as nat,
            ).contains(v) implies frontier.contains(v) by {
                let j = choose|j: int|
                    0 <= j < graph.boundary@.len() && graph.boundary@[j] == v as usize;
                assert(seen@[v]);
            }
        }
        assert(seen@ =~= spec_flow_seeded_seen(graph.boundary@, nv as nat)) by {
            assert forall|v: int| 0 <= v < nv implies seen@[v] == spec_flow_seeded_seen(
                graph.boundary@,
                nv as nat,
            )[v] by {
                if seen@[v] {
                    let j = choose|j: int| 0 <= j < nb && graph.boundary@[j] == v;
                    assert(graph.boundary@[j] == v as usize);
                }
                if graph.boundary@.contains(v as usize) {
                    let j = choose|j: int|
                        0 <= j < graph.boundary@.len() && graph.boundary@[j] == v as usize;
                    assert(seen@[v]);
                }
            }
        }
        assert(flow@ =~= Seq::new(nv as nat, |v: int| None::<usize>));
        assert(spec_flood(he, elevation@, frontier, seen@, flow@) == spec_flow(
            he,
            graph.boundary@,
            elevation@,
            nv as nat,
        ));
    }

    // Drain: repeatedly take the lowest open vertex and drain its unseen
    // neighbors toward it.
    loop
        invariant
            graph.wf(),
            nv == graph.nv(),
            elevation@.len() == nv,
            forall|v: int|
                0 <= v < elevation@.len() ==> -ELEV_BOUND <= #[trigger] elevation@[v]
                    <= ELEV_BOUND,
            nv < 0x1_0000_0000,
            flow@.len() == nv && seen@.len() == nv,
            rank.len() == nv,
            0 <= counter <= nv,
            counter + count_false(seen@) == nv,
            open@.len() <= counter,
            open.wf(),
            forall|v: int| 0 <= v < rank.len() ==> 0 <= (#[trigger] rank[v]) < nv,
            flow_targets_ok(flow@),
            flow_ranked(flow@, rank),
            forall|v: int|
                0 <= v < nv && (#[trigger] flow@[v]) is Some ==> seen@[v]
                    && seen@[flow@[v]->0 as int],
            forall|v: int|
                0 <= v < nv && #[trigger] seen@[v] ==> rank[v] < counter,
            forall|v: int|
                0 <= v < nv && graph.vertex_type@[v] == VertexType::Boundary ==> (
                #[trigger] flow@[v]) is None,
            forall|v: int|
                0 <= v < nv && graph.vertex_type@[v] == VertexType::Boundary
                    ==> #[trigger] seen@[v],
            forall|v: int|
                0 <= v < nv && #[trigger] seen@[v] ==> graph.vertex_type@[v]
                    == VertexType::Boundary || flow@[v] is Some,
            forall|v: int|
                0 <= v < nv && (#[trigger] flow@[v]) is Some ==> spec_connected(
                    graph.voronoi.halfedges@,
                    flow@[v]->0 as int,
                ).contains(v as usize),
            forall|e: Entry| #[trigger] open@.count(e) > 0 ==> 0 <= e.1 < nv && seen@[e.1 as int],
            frontier.finite(),
            forall|v: int| #[trigger] frontier.contains(v) ==> 0 <= v < nv && seen@[v as int],
            queue_matches(elevation@, frontier, open@),
            spec_flood(graph.voronoi.halfedges@, elevation@, frontier, seen@, flow@)
                == spec_flow(graph.voronoi.halfedges@, graph.boundary@, elevation@, nv as nat),
            // Every seen vertex has discharged its neighbors or still waits
            // in the queue.
            forall|v: int, k: int|
                0 <= v < nv && seen@[v] && 0 <= k < spec_connected(
                    graph.voronoi.halfedges@,
                    v,
                ).len() ==> {
                    let w = (#[trigger] spec_connected(graph.voronoi.halfedges@, v)[k]) as int;
                    seen@[w] || open@.count(((-elevation@[v]) as i64, v as u64)) > 0
                },
        ensures
            open@ =~= Multiset::<Entry>::empty(),
            flow@ == spec_flow(graph.voronoi.halfedges@, graph.boundary@, elevation@, nv as nat),
        decreases open@.len() + 4 * count_false(seen@),
    {
        let ghost loop_open = open@;
        let ghost loop_seen = seen@;
        let ghost loop_frontier = frontier;
        let popped = open.pop();
        match popped {
            None => {
                proof {
                    vstd::multiset::lemma_multiset_empty_len(open@);
                    assert forall|v: int| !(#[trigger] frontier.contains(v)) by {
                        if frontier.contains(v) {
                            assert(open@.count(flow_entry(elevation@, v)) >= 1);
                        }
                    }
                    assert(frontier =~= Set::<int>::empty());
                    assert(spec_flood(
                        graph.voronoi.halfedges@,
                        elevation@,
                        frontier,
                        seen@,
                        flow@,
                    ) == flow@);
                }
                break ;
            },
            Some(entry) => {
                let next = entry.1 as usize;
                proof {
                    let he = graph.voronoi.halfedges@;
                    lemma_pop_is_sel(elevation@, loop_frontier, loop_open, entry);
                    lemma_queue_matches_remove(elevation@, loop_frontier, loop_open, entry);
                    frontier = frontier.remove(entry.1 as int);
                    assert(next as int == entry.1 as int);
                    assert(loop_frontier.contains(next as int));
                }
                let neighbors = graph.connected_vertices(next);
                proof {
                    let he = graph.voronoi.halfedges@;
                    // Unfold one flood step: the popped vertex is the flood's
                    // selection, and the guards of the live branch hold.
                    assert(loop_frontier.len() > 0);
                    assert(spec_sel(elevation@, loop_frontier) == next as int);
                    assert(!(exists|j: int|
                        0 <= j < spec_connected(he, next as int).len() && (spec_connected(
                            he,
                            next as int,
                        )[j] as int) >= seen@.len())) by {
                        assert(forall|j: int|
                            0 <= j < neighbors@.len() ==> (#[trigger] neighbors@[j]) < nv);
                    }
                    assert(!(exists|u: int|
                        loop_frontier.contains(u) && !(0 <= u < seen@.len())));
                    assert(spec_flood(he, elevation@, loop_frontier, seen@, flow@) == spec_flood(
                        he,
                        elevation@,
                        spec_drain_ns(he, neighbors@, 0, frontier, seen@, flow@, next).0,
                        spec_drain_ns(he, neighbors@, 0, frontier, seen@, flow@, next).1,
                        spec_drain_ns(he, neighbors@, 0, frontier, seen@, flow@, next).2,
                    ));
                }
                let ghost dn = spec_drain_ns(
                    graph.voronoi.halfedges@,
                    neighbors@,
                    0,
                    frontier,
                    seen@,
                    flow@,
                    next,
                );
                let mut k: usize = 0;
                while k < neighbors.len()
                    invariant
                        graph.wf(),
                        nv == graph.nv(),
                        elevation@.len() == nv,
                        forall|v: int|
                            0 <= v < elevation@.len() ==> -ELEV_BOUND <= #[trigger] elevation@[v]
                                <= ELEV_BOUND,
                        nv < 0x1_0000_0000,
                        k <= neighbors@.len(),
                        neighbors@ == spec_connected(graph.voronoi.halfedges@, next as int),
                        forall|j: int|
                            0 <= j < neighbors@.len() ==> (#[trigger] neighbors@[j]) < nv,
                        next < nv,
                        seen@[next as int],
                        flow@.len() == nv && seen@.len() == nv,
                        rank.len() == nv,
                        0 <= counter <= nv,
                        counter + count_false(seen@) == nv,
                        open@.len() <= counter,
                        open.wf(),
                        forall|v: int| 0 <= v < rank.len() ==> 0 <= (#[trigger] rank[v]) < nv,
                        flow_targets_ok(flow@),
                        flow_ranked(flow@, rank),
                        forall|v: int|
                            0 <= v < nv && (#[trigger] flow@[v]) is Some ==> seen@[v]
                                && seen@[flow@[v]->0 as int],
                        forall|v: int|
                            0 <= v < nv && #[trigger] seen@[v] ==> rank[v] < counter,
                        forall|v: int|
                            0 <= v < nv && graph.vertex_type@[v] == VertexType::Boundary ==> (
                            #[trigger] flow@[v]) is None,
                        forall|v: int|
                            0 <= v < nv && graph.vertex_type@[v] == VertexType::Boundary
                                ==> #[trigger] seen@[v],
                        forall|v: int|
                            0 <= v < nv && #[trigger] seen@[v] ==> graph.vertex_type@[v]
                                == VertexType::Boundary || flow@[v] is Some,
                        forall|v: int|
                            0 <= v < nv && (#[trigger] flow@[v]) is Some ==> spec_connected(
                                graph.voronoi.halfedges@,
                                flow@[v]->0 as int,
                            ).contains(v as usize),
                        forall|e: Entry|
                            #[trigger] open@.count(e) > 0 ==> 0 <= e.1 < nv && seen@[e.1 as int],
                        frontier.finite(),
                        forall|v: int|
                            #[trigger] frontier.contains(v) ==> 0 <= v < nv && seen@[v as int],
                        queue_matches(elevation@, frontier, open@),
                        spec_drain_ns(
                            graph.voronoi.halfedges@,
                            neighbors@,
                            k as nat,
                            frontier,
                            seen@,
                            flow@,
                            next,
                        ) == dn,
                        spec_flood(graph.voronoi.halfedges@, elevation@, dn.0, dn.1, dn.2)
                            == spec_flow(
                            graph.voronoi.halfedges@,
                            graph.boundary@,
                            elevation@,
                            nv as nat,
                        ),
                        // Neighbors of `next` up to `k` are all seen now.
                        forall|j: int| 0 <= j < k ==> seen@[neighbors@[j] as int],
                        // Other seen vertices still covered.
                        forall|v: int, j: int|
                            0 <= v < nv && seen@[v] && v != next as int && 0 <= j
                                < spec_connected(graph.voronoi.halfedges@, v).len() ==> {
                                let w = (#[trigger] spec_connected(
                                    graph.voronoi.halfedges@,
                                    v,
                                )[j]) as int;
                                seen@[w] || open@.count(((-elevation@[v]) as i64, v as u64)) > 0
                            },
                        // Progress: seen set only grows; each new seen came
                        // with one push.
                        open@.len() + 4 * count_false(seen@) <= loop_open.len() - 1 + 4
                            * count_false(loop_seen),
                    decreases neighbors@.len() - k,
                {
                    let neighbor = neighbors[k];
                    if !seen[neighbor] {
                        proof {
                            lemma_count_false_update(seen@, neighbor as int);
                            lemma_queue_matches_insert(
                                elevation@,
                                frontier,
                                open@,
                                neighbor as int,
                            );
                            // One unfolding of the neighbor drain.
                            assert(spec_drain_ns(
                                graph.voronoi.halfedges@,
                                neighbors@,
                                k as nat,
                                frontier,
                                seen@,
                                flow@,
                                next,
                            ) == spec_drain_ns(
                                graph.voronoi.halfedges@,
                                neighbors@,
                                (k + 1) as nat,
                                frontier.insert(neighbor as int),
                                seen@.update(neighbor as int, true),
                                flow@.update(neighbor as int, Some(next)),
                                next,
                            ));
                        }
                        flow.set(neighbor, Some(next));
                        seen.set(neighbor, true);
                        open.push(neighbor as u64, -elevation[neighbor]);
                        proof {
                            rank = rank.update(neighbor as int, counter);
                            counter = counter + 1;
                            frontier = frontier.insert(neighbor as int);
                            assert((((-elevation@[neighbor as int]) as i64), neighbor as u64)
                                == flow_entry(elevation@, neighbor as int));
                            assert(queue_matches(elevation@, frontier, open@));
                            assert(spec_connected(graph.voronoi.halfedges@, next as int)[
                                k as int] == neighbor);
                            assert(spec_connected(graph.voronoi.halfedges@, next as int).contains(
                                neighbor,
                            ));
                        }
                    } else {
                        proof {
                            assert(spec_drain_ns(
                                graph.voronoi.halfedges@,
                                neighbors@,
                                k as nat,
                                frontier,
                                seen@,
                                flow@,
                                next,
                            ) == spec_drain_ns(
                                graph.voronoi.halfedges@,
                                neighbors@,
                                (k + 1) as nat,
                                frontier,
                                seen@,
                                flow@,
                                next,
                            ));
                        }
                    }
                    k = k + 1;
                }
                proof {
                    // The full drain has been performed: the flood equality
                    // carries to the new state.
                    assert(spec_drain_ns(
                        graph.voronoi.halfedges@,
                        neighbors@,
                        neighbors@.len() as nat,
                        frontier,
                        seen@,
                        flow@,
                        next,
                    ) == (frontier, seen@, flow@));
                    assert(dn.0 == frontier && dn.1 == seen@ && dn.2 == flow@);
                    assert(spec_flood(
                        graph.voronoi.halfedges@,
                        elevation@,
                        frontier,
                        seen@,
                        flow@,
                    ) == spec_flow(
                        graph.voronoi.halfedges@,
                        graph.boundary@,
                        elevation@,
                        nv as nat,
                    ));
                }
            },
        }
    }
    proof {
        assert forall|v: int, k: int|
            0 <= v < flow@.len() && (graph.vertex_type@[v] == VertexType::Boundary
                || flow@[v] is Some) && 0 <= k < spec_connected(
                graph.voronoi.halfedges@,
                v,
            ).len() implies {
            let w = (#[trigger] spec_connected(graph.voronoi.halfedges@, v)[k]) as int;
            graph.vertex_type@[w] == VertexType::Boundary || flow@[w] is Some
        } by {
            if graph.vertex_type@[v] == VertexType::Boundary || flow@[v] is Some {
                assert(seen@[v]);
                let w = spec_connected(graph.voronoi.halfedges@, v)[k] as int;
                assert(seen@[w] || open@.count(((-elevation@[v]) as i64, v as u64)) > 0);
                assert(open@.count(((-elevation@[v]) as i64, v as u64)) == 0);
            }
        }
        assert(flow_acyclic(flow@)) by {
            assert(flow_ranked(flow@, rank));
        }
    }
    flow
}

/// Iterate through the flow graph from a vertex toward a terminal.
pub fn traverse_flow_graph<'a>(flow: &'a Vec<Flow>, start: usize) -> (r: FlowGraphIterator<'a>)
    ensures
        r.flow == flow,
        r.curr == Some(start),
{
    FlowGraphIterator { flow, curr: Some(start) }
}

/// A cursor along a flow chain.
pub struct FlowGraphIterator<'a> {
    pub flow: &'a Vec<Flow>,
    pub curr: Flow,
}

impl FlowGraphIterator<'_> {
    /// Yields the current vertex and advances along its flow target.
    pub fn next(&mut self) -> (r: Option<usize>)
        requires
            old(self).curr matches Some(c) ==> c < old(self).flow@.len(),
        ensures
            r == old(self).curr,
            final(self).flow == old(self).flow,
            final(self).curr == (match old(self).curr {
                Some(i) => old(self).flow@[i as int],
                None => None,
            }),
    {
        let curr = self.curr;
        match curr {
            Some(i) => {
                self.curr = self.flow[i];
            },
            None => {
                self.curr = None;
            },
        }
        curr
    }
}

/// The remaining chain length bound at a cursor, for termination.
spec fn cur_rank(cur: Flow, rank: Seq<int>) -> int {
    match cur {
        Some(c) => rank[c as int] + 1,
        None => 0,
    }
}

/// Generate the flux of each vertex, in rainfall units: every vertex starts
/// with one unit of rain, and each interior vertex sends one unit along its
/// whole flow chain. Flux never decreases along a flow edge, and every
/// vertex keeps at least its own unit.
#[verifier::rlimit(100)]
pub fn generate_flux(graph: &TerrainGraph, flow: &Vec<Flow>) -> (flux: Vec<u64>)
    requires
        graph.wf(),
        flow@.len() == graph.nv(),
        flow_targets_ok(flow@),
        flow_acyclic(flow@),
        graph.nv() < 0x1_0000_0000,
    ensures
        flux@.len() == graph.nv(),
        forall|v: int| 0 <= v < flux@.len() ==> 1 <= #[trigger] flux@[v] <= 1 + graph.nv(),
        // One rainfall unit everywhere, plus one for each interior vertex
        // whose flow chain (itself included) passes through `v`.
        forall|v: int|
            0 <= v < flux@.len() ==> #[trigger] flux@[v] == 1 + upstream_count(
                flow@,
                graph.interior@,
                v,
            ),
        forall|v: int|
            0 <= v < flow@.len() && (#[trigger] flow@[v]) is Some ==> flux@[flow@[v]->0 as int]
                >= flux@[v],
{
    let nv = graph.vertices.len();
    let ghost rank = choose|rank: Seq<int>| flow_ranked(flow@, rank);
    let mut flux: Vec<u64> = Vec::new();
    let mut i: usize = 0;
    while i < nv
        invariant
            i <= nv,
            flux@.len() == i,
            forall|v: int| 0 <= v < i ==> (#[trigger] flux@[v]) == 1,
        decreases nv - i,
    {
        flux.push(1);
        i = i + 1;
    }

    let ni = graph.interior.len();
    proof {
        crate::terrain_graph::lemma_strict_increasing_len(graph.interior@, nv as int);
        assert(graph.interior@.take(0) =~= Seq::<usize>::empty());
    }
    let mut ii: usize = 0;
    while ii < ni
        invariant
            ii <= ni,
            graph.wf(),
            nv == graph.nv(),
            nv < 0x1_0000_0000,
            ni == graph.interior@.len(),
            ni <= nv,
            flow@.len() == nv,
            flow_targets_ok(flow@),
            flow_ranked(flow@, rank),
            flux@.len() == nv,
            forall|v: int| 0 <= v < nv ==> 1 <= #[trigger] flux@[v] <= 1 + ii,
            forall|v: int|
                0 <= v < nv ==> #[trigger] flux@[v] == 1 + upstream_count(
                    flow@,
                    graph.interior@.take(ii as int),
                    v,
                ),
            forall|v: int|
                0 <= v < nv && (#[trigger] flow@[v]) is Some ==> flux@[flow@[v]->0 as int]
                    >= flux@[v],
        decreases ni - ii,
    {
        let w = graph.interior[ii];
        let ghost pre = flux@;
        let ghost mut visited: Set<int> = Set::empty();
        let mut cur: Flow = Some(w);
        while cur.is_some()
            invariant
                graph.wf(),
                nv == graph.nv(),
                nv < 0x1_0000_0000,
                flow@.len() == nv,
                flow_targets_ok(flow@),
                flow_ranked(flow@, rank),
                flux@.len() == nv,
                pre.len() == nv,
                forall|v: int| 0 <= v < nv ==> 1 <= #[trigger] pre[v] <= 1 + ii,
                ii < ni <= nv,
                cur matches Some(c) ==> 0 <= c < nv,
                cur matches Some(c) ==> !visited.contains(c as int) && forall|x: int|
                    visited.contains(x) ==> rank[c as int] < rank[x],
                forall|x: int| #[trigger] visited.contains(x) ==> 0 <= x < nv,
                w < nv,
                forall|x: int|
                    0 <= x < nv ==> (chain_visits(flow@, w as int, x, nv as nat) <==> (
                    #[trigger] visited.contains(x) || (cur matches Some(c) && chain_visits(
                        flow@,
                        c as int,
                        x,
                        nv as nat,
                    )))),
                forall|x: int|
                    0 <= x < nv ==> #[trigger] flux@[x] == pre[x] + (if visited.contains(x) {
                        1int
                    } else {
                        0int
                    }),
                forall|x: int|
                    #[trigger] visited.contains(x) && flow@[x] is Some ==> (visited.contains(
                        flow@[x]->0 as int,
                    ) || cur == flow@[x]),
                forall|v: int|
                    0 <= v < nv && (#[trigger] flow@[v]) is Some ==> pre[flow@[v]->0 as int]
                        >= pre[v],
            decreases cur_rank(cur, rank),
        {
            let c = cur.unwrap();
            let old_f = flux[c];
            flux.set(c, old_f + 1);
            let ghost pre_visited = visited;
            proof {
                visited = visited.insert(c as int);
            }
            cur = flow[c];
            proof {
                assert forall|x: int|
                    0 <= x < nv implies (chain_visits(flow@, w as int, x, nv as nat) <==> (
                #[trigger] visited.contains(x) || (cur matches Some(c2) && chain_visits(
                    flow@,
                    c2 as int,
                    x,
                    nv as nat,
                )))) by {
                    // Restate the entry invariant at this `x` and split the
                    // old cursor's visits into `c` itself and its tail.
                    assert(pre_visited.contains(x) ==> visited.contains(x));
                    assert(chain_visits(flow@, w as int, x, nv as nat) <==> (
                    pre_visited.contains(x) || chain_visits(flow@, c as int, x, nv as nat)));
                    if x == c as int {
                        assert(chain_visits(flow@, c as int, x, nv as nat));
                        assert(visited.contains(x));
                    } else {
                        if chain_visits(flow@, c as int, x, nv as nat) {
                            assert(flow@[c as int] is Some);
                            let c2v = flow@[c as int]->0 as int;
                            assert(chain_visits(flow@, c2v, x, (nv - 1) as nat));
                            lemma_chain_visits_monotone(flow@, c2v, x, (nv - 1) as nat,
                                nv as nat);
                        }
                        if cur is Some {
                            let c2v = cur->0 as int;
                            if chain_visits(flow@, c2v, x, nv as nat) {
                                lemma_chain_visits_rank(flow@, rank, c2v, x, nv as nat);
                                assert(rank[c2v] + 1 <= rank[c as int] <= nv - 1);
                                lemma_chain_visits_monotone(
                                    flow@,
                                    c2v,
                                    x,
                                    (rank[c2v] + 1) as nat,
                                    (nv - 1) as nat,
                                );
                                assert(chain_visits(flow@, c as int, x, nv as nat));
                            }
                        }
                    }
                }
            }
        }
        proof {
            assert forall|v: int|
                0 <= v < nv && (#[trigger] flow@[v]) is Some implies flux@[flow@[v]->0 as int]
                >= flux@[v] by {
                let u = flow@[v]->0 as int;
                if visited.contains(v) {
                    assert(visited.contains(u));
                }
            }
            assert(graph.interior@.take(ii + 1).drop_last() =~= graph.interior@.take(ii as int));
            assert(graph.interior@.take(ii + 1).last() == w);
            assert forall|v: int|
                0 <= v < nv implies #[trigger] flux@[v] == 1 + upstream_count(
                flow@,
                graph.interior@.take(ii + 1),
                v,
            ) by {
                lemma_upstream_count_bound(flow@, graph.interior@.take(ii as int), v);
                assert(visited.contains(v) <==> chain_visits(flow@, w as int, v, nv as nat));
            }
            assert forall|v: int| 0 <= v < nv implies 1 <= #[trigger] flux@[v] <= 1 + (ii
                + 1) by {
                lemma_upstream_count_bound(flow@, graph.interior@.take(ii + 1), v);
            }
        }
        ii = ii + 1;
    }
    proof {
        assert(graph.interior@.take(ni as int) =~= graph.interior@);
    }
    flux
}

/// A surface normal direction: the raw cross product of two triangle edges
/// in (x, y, elevation) space, componentwise scaled down one thousandfold.
#[derive(Debug, Clone, Copy, PartialEq, Eq, Structural)]
pub struct Normal3 {
    pub x: i64,
    pub y: i64,
    pub z: i64,
}

/// Floor division by one thousand, exact also for negative values.
pub open spec fn spec_div1000(v: int) -> int {
    (v + 10_000_000_000_000_000_000_000) / 1000 - 10_000_000_000_000_000_000
}

pub fn div1000(v: i64) -> (r: i64)
    ensures
        r == spec_div1000(v as int),
        -10_000_000_000_000_000 <= r <= 10_000_000_000_000_000,
{
    proof {
        vstd::arithmetic::div_mod::lemma_div_is_ordered(
            0,
            v as int + 10_000_000_000_000_000_000_000,
            1000,
        );
        vstd::arithmetic::div_mod::lemma_div_is_ordered(
            v as int + 10_000_000_000_000_000_000_000,
            20_000_000_000_000_000_000_000,
            1000,
        );
    }
    let shifted: i128 = v as i128 + 10_000_000_000_000_000_000_000i128;
    (shifted / 1000 - 10_000_000_000_000_000_000i128) as i64
}

/// The integer square root, as a value: the unique non-negative `r` with
/// `r * r <= n < (r + 1) * (r + 1)`.
pub open spec fn is_isqrt(n: int, r: int) -> bool {
    0 <= r && r * r <= n < (r + 1) * (r + 1)
}

pub open spec fn spec_isqrt(n: int) -> int {
    choose|r: int| is_isqrt(n, r)
}

pub proof fn lemma_isqrt_unique(n: int, r: int)
    requires
        0 <= r,
        r * r <= n,
        (r + 1) * (r + 1) > n,
    ensures
        r == spec_isqrt(n),
{
    assert(is_isqrt(n, r));
    let w = choose|w: int| is_isqrt(n, w);
    assert(w == r) by (nonlinear_arith)
        requires
            0 <= r && r * r <= n < (r + 1) * (r + 1),
            0 <= w && w * w <= n < (w + 1) * (w + 1),
    ;
}

/// Magnitude cap on elevations fed to the hydrology pass, in milli-units.
pub const ELEV_LIMIT: i64 = 100_000_000;

/// The surface normal of vertex `v`: the cross product of two edges of its
/// neighbor triangle in (x, y, elevation) space, scaled down a
/// thousandfold; zero at the boundary or where a neighbor is missing.
pub open spec fn spec_normal_at(g: TerrainGraph, elevation: Seq<i64>, v: int) -> Normal3 {
    let he = g.voronoi.halfedges@;
    if g.vertex_type@[v] == VertexType::Boundary || he[3 * v] == EMPTY || he[3 * v + 1] == EMPTY
        || he[3 * v + 2] == EMPTY {
        Normal3 { x: 0, y: 0, z: 0 }
    } else {
        let na = (he[3 * v] as int) / 3;
        let nb = (he[3 * v + 1] as int) / 3;
        let nc = (he[3 * v + 2] as int) / 3;
        let ux = g.vertices@[nb].x - g.vertices@[na].x;
        let uy = g.vertices@[nb].y - g.vertices@[na].y;
        let uz = elevation[nb] - elevation[na];
        let wx = g.vertices@[nc].x - g.vertices@[na].x;
        let wy = g.vertices@[nc].y - g.vertices@[na].y;
        let wz = elevation[nc] - elevation[na];
        Normal3 {
            x: spec_div1000(uy * wz - uz * wy) as i64,
            y: spec_div1000(uz * wx - ux * wz) as i64,
            z: spec_div1000(ux * wy - uy * wx) as i64,
        }
    }
}

/// The erosion magnitude at vertex `v`, in milli-units: the horizontal share
/// of the surface normal, scaled by the square root of the flux fraction for
/// river action plus a small constant creep, clamped at twenty.
/// The horizontal share of the surface normal at `v`, as a fixed-point
/// fraction of one thousand.
pub open spec fn spec_scalar_at(g: TerrainGraph, elevation: Seq<i64>, v: int) -> int {
    let n = spec_normal_at(g, elevation, v);
    let q = n.x * n.x + n.y * n.y;
    let d = q + n.z * n.z;
    if d == 0 {
        0int
    } else {
        q * 1000 / d
    }
}

pub open spec fn spec_erosion_at(g: TerrainGraph, flux: Seq<u64>, elevation: Seq<i64>, v: int) -> int {
    let s_fp = spec_scalar_at(g, elevation, v);
    let sqrt_fp = spec_isqrt(flux[v] * 1_000_000 / g.nv());
    let raw = s_fp * sqrt_fp / 1000 + s_fp / 1000;
    if raw > 20 {
        20int
    } else {
        raw
    }
}

/// Compute the erosion magnitude of every vertex (zero at the boundary).
#[verifier::rlimit(100)]
#[verifier::spinoff_prover]
pub fn generate_erosion(graph: &TerrainGraph, flux: &Vec<u64>, elevation: &Vec<i64>) -> (r: Vec<
    i64,
>)
    requires
        graph.wf(),
        flux@.len() == graph.nv(),
        elevation@.len() == graph.nv(),
        forall|v: int|
            0 <= v < elevation@.len() ==> -ELEV_LIMIT <= #[trigger] elevation@[v] <= ELEV_LIMIT,
        forall|v: int| 0 <= v < flux@.len() ==> #[trigger] flux@[v] <= 0x1_0000_0001,
    ensures
        r@.len() == graph.nv(),
        forall|v: int|
            0 <= v < r@.len() ==> (#[trigger] r@[v]) == spec_erosion_at(
                *graph,
                flux@,
                elevation@,
                v,
            ) && 0 <= r@[v] <= 20,
{
    let nv = graph.vertices.len();
    let mut r: Vec<i64> = Vec::new();
    let mut v: usize = 0;
    while v < nv
        invariant
            v <= nv,
            graph.wf(),
            nv == graph.nv(),
            flux@.len() == nv,
            elevation@.len() == nv,
            forall|u: int|
                0 <= u < elevation@.len() ==> -ELEV_LIMIT <= #[trigger] elevation@[u]
                    <= ELEV_LIMIT,
            forall|u: int| 0 <= u < flux@.len() ==> #[trigger] flux@[u] <= 0x1_0000_0001,
            r@.len() == v,
            forall|u: int|
                0 <= u < v ==> (#[trigger] r@[u]) == spec_erosion_at(*graph, flux@, elevation@, u)
                    && 0 <= r@[u] <= 20,
        decreases nv - v,
    {
        let scalar: i64;
        match graph.interior_connected_vertices(v) {
            None => {
                scalar = 0;
                proof {
                    let n = spec_normal_at(*graph, elevation@, v as int);
                    assert(n == (Normal3 { x: 0, y: 0, z: 0 }));
                    assert(n.x * n.x + n.y * n.y == 0) by (nonlinear_arith)
                        requires
                            n.x == 0 && n.y == 0,
                    ;
                    assert(n.x * n.x + n.y * n.y + n.z * n.z == 0) by (nonlinear_arith)
                        requires
                            n.x == 0 && n.y == 0 && n.z == 0,
                    ;
                    assert(spec_scalar_at(*graph, elevation@, v as int) == 0);
                }
            },
            Some((na, nb, nc)) => {
                let a = graph.vertices[na];
                let bpt = graph.vertices[nb];
                let cpt = graph.vertices[nc];
                let ux = bpt.x - a.x;
                let uy = bpt.y - a.y;
                let uz = elevation[nb] - elevation[na];
                let wx = cpt.x - a.x;
                let wy = cpt.y - a.y;
                let wz = elevation[nc] - elevation[na];
                proof {
                    assert(ux * wy <= 4_000_000_000_000_000_000 && ux * wy
                        >= -4_000_000_000_000_000_000 && uy * wx <= 4_000_000_000_000_000_000
                        && uy * wx >= -4_000_000_000_000_000_000 && uy * wz
                        <= 4_000_000_000_000_000_000 && uy * wz >= -4_000_000_000_000_000_000
                        && uz * wy <= 4_000_000_000_000_000_000 && uz * wy
                        >= -4_000_000_000_000_000_000 && uz * wx <= 4_000_000_000_000_000_000
                        && uz * wx >= -4_000_000_000_000_000_000 && ux * wz
                        <= 4_000_000_000_000_000_000 && ux * wz >= -4_000_000_000_000_000_000)
                        by (nonlinear_arith)
                        requires
                            -2_000_000_000 <= ux <= 2_000_000_000,
                            -2_000_000_000 <= uy <= 2_000_000_000,
                            -2_000_000_000 <= wx <= 2_000_000_000,
                            -2_000_000_000 <= wy <= 2_000_000_000,
                            -2_000_000_000 <= uz <= 2_000_000_000,
                            -2_000_000_000 <= wz <= 2_000_000_000,
                    ;
                }
                let nx = div1000(uy * wz - uz * wy);
                let ny = div1000(uz * wx - ux * wz);
                let nz = div1000(ux * wy - uy * wx);
                proof {
                    assert(nx * nx >= 0 && nx * nx <= 0x1_0000_0000_0000_0000_0000_0000_0000
                        && ny * ny >= 0 && ny * ny <= 0x1_0000_0000_0000_0000_0000_0000_0000
                        && nz * nz >= 0 && nz * nz <= 0x1_0000_0000_0000_0000_0000_0000_0000)
                        by (nonlinear_arith)
                        requires
                            -10_000_000_000_000_000 <= nx <= 10_000_000_000_000_000,
                            -10_000_000_000_000_000 <= ny <= 10_000_000_000_000_000,
                            -10_000_000_000_000_000 <= nz <= 10_000_000_000_000_000,
                    ;
                }
                let q: i128 = (nx as i128) * (nx as i128) + (ny as i128) * (ny as i128);
                let d: i128 = q + (nz as i128) * (nz as i128);
                let s_fp: i128;
                if d == 0 {
                    s_fp = 0;
                } else {
                    proof {
                        assert(q * 1000 >= 0 && q * 1000 <= d * 1000) by (nonlinear_arith)
                            requires
                                0 <= q <= d,
                                d <= 0x3_0000_0000_0000_0000_0000_0000_0000,
                        ;
                        assert(0 <= (q * 1000) as int / (d as int) <= 1000) by (nonlinear_arith)
                            requires
                                (d as int) > 0,
                                0 <= (q * 1000) as int <= (d as int) * 1000,
                        ;
                    }
                    s_fp = q * 1000 / d;
                }
                scalar = s_fp as i64;
                proof {
                    let n = spec_normal_at(*graph, elevation@, v as int);
                    assert(n.x == nx && n.y == ny && n.z == nz);
                    assert(q as int == n.x * n.x + n.y * n.y);
                    assert(d as int == n.x * n.x + n.y * n.y + n.z * n.z);
                    if d != 0 {
                        assert(s_fp as int == (q * 1000) as int / (d as int));
                        assert((q * 1000) as int == (q as int) * 1000);
                        assert(s_fp as int == (n.x * n.x + n.y * n.y) * 1000 / (d as int));
                        assert(scalar as int == spec_scalar_at(*graph, elevation@, v as int));
                    } else {
                        assert(scalar as int == spec_scalar_at(*graph, elevation@, v as int));
                    }
                }
            },
        }
        // River action scales with the square root of the flux fraction.
        let sq_arg = flux[v] * 1_000_000 / (nv as u64);
        let sqrt_fp = crate::geom::isqrt(sq_arg);
        proof {
            lemma_isqrt_unique(sq_arg as int, sqrt_fp as int);
            assert(0 <= scalar <= 1000);
            assert(scalar * (sqrt_fp as i64) >= 0 && scalar * (sqrt_fp as i64) <= 1000 * (
            sqrt_fp as i64)) by (nonlinear_arith)
                requires
                    0 <= scalar <= 1000,
                    0 <= sqrt_fp <= 0x1_0000_0000,
            ;
        }
        let river = (scalar as i128) * (sqrt_fp as i128) / 1000;
        let creep = scalar / 1000;
        proof {
            assert(0 <= river <= (sqrt_fp as i128)) by (nonlinear_arith)
                requires
                    0 <= (scalar as i128) * (sqrt_fp as i128) <= 1000 * (sqrt_fp as i128),
                    river == (scalar as i128) * (sqrt_fp as i128) / 1000,
                    0 <= sqrt_fp <= 0x1_0000_0000,
            ;
        }
        let raw = river + (creep as i128);
        let e: i64 = if raw > 20 {
            20
        } else {
            raw as i64
        };
        proof {
            let sp = spec_scalar_at(*graph, elevation@, v as int);
            assert(scalar as int == sp);
            assert(river as int == sp * (sqrt_fp as int) / 1000);
            assert(creep as int == sp / 1000);
            assert(e as int == spec_erosion_at(*graph, flux@, elevation@, v as int));
        }
        r.push(e);
        v = v + 1;
    }
    r
}

/// Subtract each vertex's erosion, scaled, from its elevation.
pub fn erode(elevation: &mut Vec<i64>, erosion: &Vec<i64>, scalar: i64)
    requires
        erosion@.len() == old(elevation)@.len(),
        0 <= scalar <= 1000,
        forall|v: int| 0 <= v < erosion@.len() ==> 0 <= #[trigger] erosion@[v] <= 20,
        forall|v: int|
            0 <= v < old(elevation)@.len() ==> -ELEV_LIMIT <= #[trigger] old(elevation)@[v]
                <= ELEV_LIMIT,
    ensures
        final(elevation)@.len() == old(elevation)@.len(),
        forall|v: int|
            0 <= v < final(elevation)@.len() ==> #[trigger] final(elevation)@[v] == old(
                elevation,
            )@[v] - erosion@[v] * scalar,
{
    let n = elevation.len();
    let mut i: usize = 0;
    while i < n
        invariant
            i <= n,
            n == elevation@.len(),
            erosion@.len() == n,
            0 <= scalar <= 1000,
            forall|v: int| 0 <= v < erosion@.len() ==> 0 <= #[trigger] erosion@[v] <= 20,
            forall|v: int|
                i <= v < n ==> #[trigger] elevation@[v] == old(elevation)@[v] && -ELEV_LIMIT
                    <= elevation@[v] <= ELEV_LIMIT,
            forall|v: int|
                0 <= v < i ==> #[trigger] elevation@[v] == old(elevation)@[v] - erosion@[v]
                    * scalar,
        decreases n - i,
    {
        proof {
            assert(0 <= erosion@[i as int] * scalar <= 20_000) by (nonlinear_arith)
                requires
                    0 <= erosion@[i as int] <= 20,
                    0 <= scalar <= 1000,
            ;
        }
        let e = elevation[i];
        elevation.set(i, e - erosion[i] * scalar);
        i = i + 1;
    }
}

} // verus!
