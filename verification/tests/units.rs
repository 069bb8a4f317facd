use terragen::erosion::div1000;
use terragen::geom::{dist_sq, expand_rect, isqrt, Extent, Point};
use terragen::priority_index::PriorityQueue;
use terragen::rng::{dir32, random_point_in_rect, Rng};
use terragen::terrain_data::{ease_with_power, median, set_median_sealevel, set_sealevel, smooth};
use terragen::util::{
    indexed_mean, lerp, map_clamp, max_position, minmax, normalize, saturate, unlerp,
};

#[test]
fn isqrt_exact_values() {
    assert_eq!(isqrt(0), 0);
    assert_eq!(isqrt(1), 1);
    assert_eq!(isqrt(3), 1);
    assert_eq!(isqrt(4), 2);
    assert_eq!(isqrt(99), 9);
    assert_eq!(isqrt(100), 10);
    assert_eq!(isqrt(10_000_000_000_000_000), 100_000_000);
    assert_eq!(isqrt(u64::MAX), 4_294_967_295);
}

#[test]
fn saturate_clamps_to_unit_range() {
    assert_eq!(saturate(-5), 0);
    assert_eq!(saturate(0), 0);
    assert_eq!(saturate(437), 437);
    assert_eq!(saturate(1000), 1000);
    assert_eq!(saturate(1001), 1000);
}

#[test]
fn map_clamp_matches_linear_map() {
    // Halfway through [0, 200] maps to halfway through [0, 1000].
    assert_eq!(map_clamp(100, 0, 200, 0, 1000), 500);
    // Clamped below and above.
    assert_eq!(map_clamp(-50, 0, 200, 0, 1000), 0);
    assert_eq!(map_clamp(300, 0, 200, 0, 1000), 1000);
    // A shifted output range.
    assert_eq!(map_clamp(50, 0, 100, 200, 400), 300);
}

#[test]
fn lerp_and_unlerp_are_inverse_on_exact_points() {
    assert_eq!(lerp(0, 10, 20), 10);
    assert_eq!(lerp(1000, 10, 20), 20);
    assert_eq!(lerp(500, 0, 100), 50);
    assert_eq!(unlerp(50, 0, 100), 500);
    assert_eq!(unlerp(10, 10, 20), 0);
    assert_eq!(unlerp(20, 10, 20), 1000);
}

#[test]
fn max_position_returns_first_maximum() {
    assert_eq!(max_position(&vec![]), None);
    assert_eq!(max_position(&vec![5]), Some(0));
    assert_eq!(max_position(&vec![1, 7, 3, 7, 2]), Some(1));
    assert_eq!(max_position(&vec![-4, -2, -9]), Some(1));
}

#[test]
fn minmax_and_normalize() {
    assert_eq!(minmax(&vec![]), None);
    assert_eq!(minmax(&vec![3, -1, 7, 0]), Some((-1, 7)));
    let mut v = vec![0i64, 50, 100];
    normalize(&mut v, 1000);
    assert_eq!(v, vec![0, 500, 1000]);
    let mut flat = vec![7i64, 7, 7];
    normalize(&mut flat, 1000);
    assert_eq!(flat, vec![0, 0, 0]);
}

#[test]
fn indexed_mean_averages_the_subset() {
    assert_eq!(indexed_mean(&vec![10, 20, 30, 40], &vec![0, 2]), 20);
    assert_eq!(indexed_mean(&vec![10, 20, 30], &vec![]), 0);
    assert_eq!(indexed_mean(&vec![-10, 10], &vec![0, 1]), 0);
}

#[test]
fn div1000_floors_negative_values() {
    assert_eq!(div1000(1999), 1);
    assert_eq!(div1000(-1), -1);
    assert_eq!(div1000(-1999), -2);
    assert_eq!(div1000(-2000), -2);
    assert_eq!(div1000(0), 0);
}

#[test]
fn ease_with_power_exact_values() {
    // Steepness one is the identity.
    assert_eq!(ease_with_power(0, 1), 0);
    assert_eq!(ease_with_power(250, 1), 250);
    assert_eq!(ease_with_power(500, 1), 500);
    assert_eq!(ease_with_power(750, 1), 750);
    assert_eq!(ease_with_power(1000, 1), 1000);
    // Quadratic in/out easing.
    assert_eq!(ease_with_power(500, 2), 500);
    assert_eq!(ease_with_power(250, 2), 125);
    assert_eq!(ease_with_power(750, 2), 875);
    assert_eq!(ease_with_power(1000, 2), 1000);
}

#[test]
fn priority_queue_pops_greatest_first() {
    let mut q = PriorityQueue::new();
    q.push(10, 5);
    q.push(11, -3);
    q.push(12, 9);
    q.push(13, 5);
    assert_eq!(q.len(), 4);
    // Greatest score first; equal scores leave greater payload first.
    assert_eq!(q.pop(), Some((9, 12)));
    assert_eq!(q.pop(), Some((5, 13)));
    assert_eq!(q.pop(), Some((5, 10)));
    assert_eq!(q.pop(), Some((-3, 11)));
    assert_eq!(q.pop(), None);
    assert!(q.is_empty());
}

#[test]
fn rng_streams_are_deterministic_per_seed() {
    let mut a = Rng::seed_from_u64(42);
    let mut b = Rng::seed_from_u64(42);
    let mut c = Rng::seed_from_u64(43);
    let va: Vec<u64> = (0..16).map(|_| a.next_u64()).collect();
    let vb: Vec<u64> = (0..16).map(|_| b.next_u64()).collect();
    let vc: Vec<u64> = (0..16).map(|_| c.next_u64()).collect();
    assert_eq!(va, vb);
    assert_ne!(va, vc);
    let mut r = Rng::seed_from_u64(7);
    for _ in 0..100 {
        let v = r.gen_range_i64(5, 12);
        assert!((5..12).contains(&v));
    }
}

#[test]
fn dir32_walks_the_unit_circle() {
    assert_eq!(dir32(0), Point { x: 1000, y: 0 });
    assert_eq!(dir32(8), Point { x: 0, y: 1000 });
    assert_eq!(dir32(16), Point { x: -1000, y: 0 });
    assert_eq!(dir32(24), Point { x: 0, y: -1000 });
    assert_eq!(dir32(32), dir32(0));
    for k in 0..32 {
        let d = dir32(k);
        let len_sq = d.x * d.x + d.y * d.y;
        assert!((990 * 990..=1010 * 1010).contains(&len_sq));
    }
}

#[test]
fn random_point_in_rect_stays_inside() {
    let rect = Extent { x0: -50, y0: 10, x1: 50, y1: 20 };
    let mut rng = Rng::seed_from_u64(1);
    for _ in 0..200 {
        let p = random_point_in_rect(&mut rng, rect);
        assert!(rect.x0 <= p.x && p.x <= rect.x1);
        assert!(rect.y0 <= p.y && p.y <= rect.y1);
    }
}

#[test]
fn geometry_helpers() {
    let a = Point { x: 0, y: 0 };
    let b = Point { x: 3, y: 4 };
    assert_eq!(dist_sq(a, b), 25);
    let r = expand_rect(Extent { x0: 0, y0: 0, x1: 10, y1: 20 }, 5);
    assert_eq!(r, Extent { x0: -5, y0: -5, x1: 15, y1: 25 });
}

#[test]
fn median_picks_the_upper_middle() {
    assert_eq!(median(&vec![5]), 5);
    assert_eq!(median(&vec![3, 1, 2]), 2);
    assert_eq!(median(&vec![4, 1, 3, 2]), 3);
    assert_eq!(median(&vec![10, -5, 0, 7, 3]), 3);
}

#[test]
fn sea_level_balance_on_distinct_values() {
    // After the sea-level fix the counts of land and water vertices differ
    // by at most one.
    let mut e = vec![50i64, -20, 13, 7, 99, -3, 28];
    let m = set_median_sealevel(&mut e);
    assert_eq!(m, 13);
    let ge = e.iter().filter(|&&x| x >= 0).count() as i64;
    let lt = e.iter().filter(|&&x| x < 0).count() as i64;
    assert!(0 <= ge - lt && ge - lt <= 1);

    let mut even = vec![8i64, 2, 6, 4];
    let m2 = set_median_sealevel(&mut even);
    assert_eq!(m2, 6);
    let ge2 = even.iter().filter(|&&x| x >= 0).count() as i64;
    let lt2 = even.iter().filter(|&&x| x < 0).count() as i64;
    assert!(0 <= ge2 - lt2 && ge2 - lt2 <= 1);
}

#[test]
fn sealevel_shift_and_smooth() {
    let mut e = vec![10i64, 0, -5];
    set_sealevel(&mut e, 3);
    assert_eq!(e, vec![7, -3, -8]);
    // The square-root compression works in world units: a four-unit
    // elevation becomes a two-unit one.
    let mut s = vec![4000i64, 0, 1000];
    smooth(&mut s);
    assert_eq!(s, vec![2000, 0, 1000]);
}
