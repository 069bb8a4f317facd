use vstd::prelude::*;

use crate::geom::{dist_sq, in_bound, isqrt, lemma_dist_sq_sym, spec_dist_sq, Extent, Point};
use crate::rng::{random_point_in_rect, Rng};

verus! {

/// The grid cell of a point, for a sampling extent and cell size.
pub open spec fn cell_x(extent: Extent, cell_size: int, p: Point) -> int {
    (p.x - extent.x0) / cell_size
}

pub open spec fn cell_y(extent: Extent, cell_size: int, p: Point) -> int {
    (p.y - extent.y0) / cell_size
}

/// A spatial grid containing the optional index of (at most one) point in
/// each grid cell.
pub struct SampleGrid {
    pub cols: usize,
    pub rows: usize,
    pub grid: Vec<Option<usize>>,
}

impl SampleGrid {
    pub open spec fn wf(&self) -> bool {
        &&& self.grid@.len() == self.cols * self.rows
        &&& self.cols >= 1
        &&& self.rows >= 1
        &&& self.cols < 0x1_0000
        &&& self.rows < 0x1_0000
    }

    pub open spec fn at(&self, cx: int, cy: int) -> Option<usize> {
        self.grid@[cx + cy * self.cols]
    }

    pub fn new(cols: usize, rows: usize) -> (r: SampleGrid)
        requires
            1 <= cols < 0x1_0000,
            1 <= rows < 0x1_0000,
        ensures
            r.wf(),
            r.cols == cols && r.rows == rows,
            forall|g: int| 0 <= g < r.grid@.len() ==> (#[trigger] r.grid@[g]) is None,
    {
        proof {
            assert((cols as int) * (rows as int) < 0xFFFF_FFFF) by (nonlinear_arith)
                requires
                    0 <= cols < 0x1_0000,
                    0 <= rows < 0x1_0000,
            ;
        }
        let n = cols * rows;
        let mut grid: Vec<Option<usize>> = Vec::new();
        let mut i: usize = 0;
        while i < n
            invariant
                i <= n,
                grid@.len() == i,
                forall|g: int| 0 <= g < i ==> (#[trigger] grid@[g]) is None,
            decreases n - i,
        {
            grid.push(None);
            i = i + 1;
        }
        SampleGrid { cols, rows, grid }
    }

    pub fn get(&self, cell: (usize, usize)) -> (r: Option<usize>)
        requires
            self.wf(),
            cell.0 < self.cols,
            cell.1 < self.rows,
        ensures
            r == self.at(cell.0 as int, cell.1 as int),
    {
        let n = self.grid.len();
        proof {
            lemma_grid_index_range(cell.0 as int, cell.1 as int, self.cols as int,
                self.rows as int);
        }
        self.grid[cell.0 + cell.1 * self.cols]
    }

    pub fn set(&mut self, cell: (usize, usize), value: Option<usize>)
        requires
            old(self).wf(),
            cell.0 < old(self).cols,
            cell.1 < old(self).rows,
        ensures
            final(self).wf(),
            final(self).cols == old(self).cols && final(self).rows == old(self).rows,
            final(self).grid@ == old(self).grid@.update(
                cell.0 + cell.1 * old(self).cols as int,
                value,
            ),
    {
        let n = self.grid.len();
        proof {
            lemma_grid_index_range(cell.0 as int, cell.1 as int, self.cols as int,
                self.rows as int);
        }
        self.grid.set(cell.0 + cell.1 * self.cols, value);
    }
}

/// A cell coordinate pair in range addresses a slot of the flat grid.
pub proof fn lemma_grid_index_range(cx: int, cy: int, cols: int, rows: int)
    requires
        0 <= cx < cols,
        0 <= cy < rows,
    ensures
        0 <= cx + cy * cols < cols * rows,
{
    assert(cx + cy * cols < cols * rows) by (nonlinear_arith)
        requires
            0 <= cx < cols,
            0 <= cy < rows,
    ;
    assert(cy * cols >= 0) by (nonlinear_arith)
        requires
            cy >= 0,
            cols >= 0,
    ;
}

/// Distinct cell coordinates address distinct slots.
pub proof fn lemma_grid_index_injective(ax: int, ay: int, bx: int, by: int, cols: int)
    requires
        0 <= ax < cols,
        0 <= bx < cols,
        0 <= ay,
        0 <= by,
        ax + ay * cols == bx + by * cols,
    ensures
        ax == bx && ay == by,
{
    assert(ax == bx && ay == by) by (nonlinear_arith)
        requires
            0 <= ax < cols,
            0 <= bx < cols,
            0 <= ay,
            0 <= by,
            ax + ay * cols == bx + by * cols,
    ;
}

/// Two points of one cell lie closer than the separation radius: each axis
/// differs by less than the cell size, and twice the squared cell size is at
/// most the squared radius.
proof fn lemma_same_cell_close(extent: Extent, c: int, r: int, p: Point, q: Point)
    requires
        extent.wf(),
        c >= 1,
        2 * c * c <= r * r,
        extent.spec_contains(p),
        extent.spec_contains(q),
        cell_x(extent, c, p) == cell_x(extent, c, q),
        cell_y(extent, c, p) == cell_y(extent, c, q),
    ensures
        spec_dist_sq(p, q) < r * r,
{
    let dx = p.x - q.x;
    let dy = p.y - q.y;
    assert(-c < dx < c && -c < dy < c) by {
        lemma_same_div_close(p.x - extent.x0, q.x - extent.x0, c);
        lemma_same_div_close(p.y - extent.y0, q.y - extent.y0, c);
    }
    assert(dx * dx + dy * dy < 2 * c * c) by (nonlinear_arith)
        requires
            -c < dx < c,
            -c < dy < c,
            c >= 1,
    ;
}

/// Values with equal quotients differ by less than the divisor.
proof fn lemma_same_div_close(a: int, b: int, c: int)
    requires
        a >= 0,
        b >= 0,
        c >= 1,
        a / c == b / c,
    ensures
        -c < a - b < c,
{
    vstd::arithmetic::div_mod::lemma_fundamental_div_mod(a, c);
    vstd::arithmetic::div_mod::lemma_fundamental_div_mod(b, c);
    assert(a == c * (a / c) + a % c);
    assert(0 <= a % c < c && 0 <= b % c < c) by {
        vstd::arithmetic::div_mod::lemma_mod_division_less_than_divisor(a, c);
        vstd::arithmetic::div_mod::lemma_mod_division_less_than_divisor(b, c);
    }
}

/// Points closer than the radius sit within two cells of each other on both
/// axes, provided twice the cell size reaches the radius.
proof fn lemma_near_in_window(extent: Extent, c: int, r: int, p: Point, q: Point)
    requires
        extent.wf(),
        c >= 1,
        2 * c >= r,
        r >= 1,
        extent.spec_contains(p),
        extent.spec_contains(q),
        spec_dist_sq(p, q) < r * r,
    ensures
        cell_x(extent, c, p) - 2 <= cell_x(extent, c, q) <= cell_x(extent, c, p) + 2,
        cell_y(extent, c, p) - 2 <= cell_y(extent, c, q) <= cell_y(extent, c, p) + 2,
{
    let dx = p.x - q.x;
    let dy = p.y - q.y;
    assert(-r < dx < r && -r < dy < r) by (nonlinear_arith)
        requires
            dx * dx + dy * dy < r * r,
            r >= 1,
            dx == p.x - q.x,
            dy == p.y - q.y,
            spec_dist_sq(p, q) == dx * dx + dy * dy,
    ;
    lemma_div_window(p.x - extent.x0, q.x - extent.x0, c, r as int);
    lemma_div_window(p.y - extent.y0, q.y - extent.y0, c, r as int);
}

/// Non-negative values within `r` of each other have quotients within two,
/// when `2 * c >= r`.
proof fn lemma_div_window(a: int, b: int, c: int, r: int)
    requires
        a >= 0,
        b >= 0,
        c >= 1,
        r >= 1,
        2 * c >= r,
        -r < a - b < r,
    ensures
        a / c - 2 <= b / c <= a / c + 2,
{
    vstd::arithmetic::div_mod::lemma_fundamental_div_mod(a, c);
    vstd::arithmetic::div_mod::lemma_fundamental_div_mod(b, c);
    vstd::arithmetic::div_mod::lemma_mod_division_less_than_divisor(a, c);
    vstd::arithmetic::div_mod::lemma_mod_division_less_than_divisor(b, c);
    let qa = a / c;
    let qb = b / c;
    assert(qa >= 0 && qb >= 0) by {
        vstd::arithmetic::div_mod::lemma_div_pos_is_pos(a, c);
        vstd::arithmetic::div_mod::lemma_div_pos_is_pos(b, c);
    }
    // b < a + r <= a + 2c = c*(qa + 2) + a % c + ... so qb < qa + 3.
    assert(b < c * (qa + 3) && a < c * (qb + 3)) by (nonlinear_arith)
        requires
            a == c * qa + a % c,
            b == c * qb + b % c,
            0 <= a % c < c,
            0 <= b % c < c,
            -r < a - b < r,
            2 * c >= r,
            c >= 1,
    ;
    assert(qb < qa + 3) by {
        vstd::arithmetic::div_mod::lemma_multiply_divide_lt(b, c, qa + 3);
    }
    assert(qa < qb + 3) by {
        vstd::arithmetic::div_mod::lemma_multiply_divide_lt(a, c, qb + 3);
    }
}

/// How many grid cells are unoccupied.
spec fn none_count(s: Seq<Option<usize>>) -> nat
    decreases s.len(),
{
    if s.len() == 0 {
        0
    } else {
        none_count(s.drop_last()) + if s.last() is None {
            1nat
        } else {
            0nat
        }
    }
}

/// Filling an empty cell lowers the number of unoccupied cells.
proof fn lemma_none_count_update(s: Seq<Option<usize>>, i: int, v: Option<usize>)
    requires
        0 <= i < s.len(),
        s[i] is None,
        v is Some,
    ensures
        none_count(s) >= 1,
        none_count(s.update(i, v)) == none_count(s) - 1,
    decreases s.len(),
{
    if i == s.len() - 1 {
        assert(s.update(i, v).drop_last() =~= s.drop_last());
    } else {
        assert(s.update(i, v).drop_last() =~= s.drop_last().update(i, v));
        lemma_none_count_update(s.drop_last(), i, v);
    }
}

/// The sampler state: grid-accelerated dart throwing.
struct PoissonDiskSampler {
    /// The range of values to generate samples in.
    extent: Extent,
    /// The min allowed radius between samples.
    radius: i64,
    /// The size of each grid cell.
    cell_size: i64,
    /// The list of point indexes to sample additional points from.
    queued: Vec<usize>,
    /// The sampled points.
    points: Vec<Point>,
    /// A spatial grid containing the optional index of (at most one) point in
    /// the grid cell.
    grid: SampleGrid,
}

/// The grid slot addressed by the cell of point `i`.
spec fn slot_of(s: PoissonDiskSampler, i: int) -> int {
    cell_x(s.extent, s.cell_size as int, s.points@[i]) + cell_y(s.extent, s.cell_size as int,
        s.points@[i]) * s.grid.cols
}

spec fn sampler_wf(s: PoissonDiskSampler) -> bool {
    &&& s.extent.wf()
    &&& 3 <= s.radius <= 100_000_000
    &&& 1 <= s.cell_size <= s.radius
    &&& 2 * s.cell_size >= s.radius
    &&& 2 * s.cell_size * s.cell_size <= s.radius * s.radius
    &&& s.grid.wf()
    &&& s.grid.cols == (s.extent.x1 - s.extent.x0) as int / s.cell_size as int + 1
    &&& s.grid.rows == (s.extent.y1 - s.extent.y0) as int / s.cell_size as int + 1
    &&& forall|i: int|
        0 <= i < s.points@.len() ==> s.extent.spec_contains(#[trigger] s.points@[i])
    &&& forall|i: int|
        0 <= i < s.points@.len() ==> s.grid.grid@[#[trigger] slot_of(s, i)] == Some(i as usize)
    &&& forall|g: int|
        0 <= g < s.grid.grid@.len() && (#[trigger] s.grid.grid@[g]) is Some ==> {
            let j = s.grid.grid@[g]->0 as int;
            0 <= j < s.points@.len() && slot_of(s, j) == g
        }
    &&& forall|i: int, j: int|
        0 <= i < s.points@.len() && 0 <= j < s.points@.len() && i != j ==> spec_dist_sq(
            #[trigger] s.points@[i],
            #[trigger] s.points@[j],
        ) >= s.radius * s.radius
    &&& forall|k: int| 0 <= k < s.queued@.len() ==> (#[trigger] s.queued@[k]) < s.points@.len()
}

/// The cell of an in-extent point is addressable.
proof fn lemma_cell_in_range(s: PoissonDiskSampler, p: Point)
    requires
        sampler_wf(s),
        s.extent.spec_contains(p),
    ensures
        0 <= cell_x(s.extent, s.cell_size as int, p) < s.grid.cols,
        0 <= cell_y(s.extent, s.cell_size as int, p) < s.grid.rows,
{
    vstd::arithmetic::div_mod::lemma_div_pos_is_pos(p.x - s.extent.x0, s.cell_size as int);
    vstd::arithmetic::div_mod::lemma_div_pos_is_pos(p.y - s.extent.y0, s.cell_size as int);
    vstd::arithmetic::div_mod::lemma_div_is_ordered(
        p.x - s.extent.x0,
        s.extent.x1 - s.extent.x0,
        s.cell_size as int,
    );
    vstd::arithmetic::div_mod::lemma_div_is_ordered(
        p.y - s.extent.y0,
        s.extent.y1 - s.extent.y0,
        s.cell_size as int,
    );
}

impl PoissonDiskSampler {
    /// An in-extent point is inside the coordinate bound.
    proof fn lemma_contained_in_bound(&self, p: Point)
        requires
            sampler_wf(*self),
            self.extent.spec_contains(p),
        ensures
            in_bound(p),
    {
    }

    fn cell(&self, p: Point) -> (r: (usize, usize))
        requires
            sampler_wf(*self),
            self.extent.spec_contains(p),
        ensures
            r.0 == cell_x(self.extent, self.cell_size as int, p),
            r.1 == cell_y(self.extent, self.cell_size as int, p),
            r.0 < self.grid.cols,
            r.1 < self.grid.rows,
    {
        proof {
            lemma_cell_in_range(*self, p);
        }
        let cx = (p.x - self.extent.x0) / self.cell_size;
        let cy = (p.y - self.extent.y0) / self.cell_size;
        (cx as usize, cy as usize)
    }

    /// Returns true if point `p` is near the point registered in `cell`.
    fn near_point_in_cell(&self, p: Point, cell: (usize, usize)) -> (r: bool)
        requires
            sampler_wf(*self),
            in_bound(p),
            cell.0 < self.grid.cols,
            cell.1 < self.grid.rows,
        ensures
            r == cell_hit(*self, p, cell.0 as int, cell.1 as int),
    {
        proof {
            lemma_grid_index_range(
                cell.0 as int,
                cell.1 as int,
                self.grid.cols as int,
                self.grid.rows as int,
            );
        }
        match self.grid.get(cell) {
            Some(i) => {
                proof {
                    self.lemma_contained_in_bound(self.points@[i as int]);
                }
                let d = dist_sq(self.points[i], p);
                proof {
                    assert((self.radius as int) * (self.radius as int) <= 10_000_000_000_000_000)
                        by (nonlinear_arith)
                        requires
                            0 <= self.radius <= 100_000_000,
                    ;
                }
                d < self.radius * self.radius
            },
            None => false,
        }
    }

    /// Returns true if point `p` is near an existing point in the grid.
    fn near_point_in_grid(&self, p: Point) -> (r: bool)
        requires
            sampler_wf(*self),
            self.extent.spec_contains(p),
        ensures
            r == exists|j: int|
                0 <= j < self.points@.len() && spec_dist_sq(#[trigger] self.points@[j], p)
                    < self.radius * self.radius,
    {
        let np = self.points.len();
        let (cx, cy) = self.cell(p);

        let x_min: usize = if cx >= 2 {
            cx - 2
        } else {
            0
        };
        let y_min: usize = if cy >= 2 {
            cy - 2
        } else {
            0
        };
        let x_max: usize = if cx + 3 <= self.grid.cols {
            cx + 3
        } else {
            self.grid.cols
        };
        let y_max: usize = if cy + 3 <= self.grid.rows {
            cy + 3
        } else {
            self.grid.rows
        };

        let mut y = y_min;
        while y < y_max
            invariant
                sampler_wf(*self),
                self.extent.spec_contains(p),
                in_bound(p),
                y_min <= y <= y_max,
                x_min <= x_max <= self.grid.cols,
                y_max <= self.grid.rows,
                forall|gx: int, gy: int|
                    x_min <= gx < x_max && y_min <= gy < y ==> !cell_hit(*self, p, gx, gy),
            decreases y_max - y,
        {
            let mut x = x_min;
            while x < x_max
                invariant
                    sampler_wf(*self),
                    self.extent.spec_contains(p),
                    in_bound(p),
                    y_min <= y < y_max,
                    x_min <= x <= x_max <= self.grid.cols,
                    y_max <= self.grid.rows,
                    forall|gx: int, gy: int|
                        x_min <= gx < x_max && y_min <= gy < y ==> !cell_hit(*self, p, gx, gy),
                    forall|gx: int| x_min <= gx < x ==> !cell_hit(*self, p, gx, y as int),
                decreases x_max - x,
            {
                if self.near_point_in_cell(p, (x, y)) {
                    proof {
                        let g = x + y * self.grid.cols as int;
                        lemma_grid_index_range(
                            x as int,
                            y as int,
                            self.grid.cols as int,
                            self.grid.rows as int,
                        );
                        let j = self.grid.grid@[g]->0 as int;
                        assert(0 <= j < self.points@.len() && spec_dist_sq(self.points@[j], p)
                            < self.radius * self.radius);
                    }
                    return true;
                }
                x = x + 1;
            }
            y = y + 1;
        }
        proof {
            let c = self.cell_size as int;
            let cx_i = cell_x(self.extent, c, p);
            let cy_i = cell_y(self.extent, c, p);
            assert forall|j: int|
                0 <= j < self.points@.len() implies !(spec_dist_sq(#[trigger] self.points@[j], p)
                < self.radius * self.radius) by {
                if spec_dist_sq(self.points@[j], p) < self.radius * self.radius {
                    let q = self.points@[j];
                    assert((p.x - q.x) * (p.x - q.x) == (q.x - p.x) * (q.x - p.x) && (p.y - q.y)
                        * (p.y - q.y) == (q.y - p.y) * (q.y - p.y)) by (nonlinear_arith);
                    assert(spec_dist_sq(p, q) == spec_dist_sq(q, p));
                    lemma_near_in_window(self.extent, c, self.radius as int, p, q);
                    lemma_cell_in_range(*self, q);
                    let gx = cell_x(self.extent, c, q);
                    let gy = cell_y(self.extent, c, q);
                    assert(x_min <= gx < x_max && y_min <= gy < y_max);
                    lemma_grid_index_range(gx, gy, self.grid.cols as int, self.grid.rows as int);
                    assert(self.grid.grid@[slot_of(*self, j)] == Some(j as usize));
                    assert(cell_hit(*self, p, gx, gy));
                }
            }
        }
        false
    }
}

/// The cell `(gx, gy)` holds a point within the separation radius of `p`.
spec fn cell_hit(s: PoissonDiskSampler, p: Point, gx: int, gy: int) -> bool {
    let e = s.grid.grid@[gx + gy * s.grid.cols];
    e is Some && spec_dist_sq(s.points@[e->0 as int], p) < s.radius * s.radius
}

/// One computed offset component: the direction component times the step
/// distance, at fixed-point scale (the shared shift keeps flooring exact).
spec fn spec_offset(d: int, rdist: int) -> int {
    (d * rdist + 1_000_000_000_000_000) / 1000 - 1_000_000_000_000
}

fn mul_dir(d: i64, rdist: i64) -> (r: i64)
    requires
        -1000 <= d <= 1000,
        0 < rdist <= 1_000_000_000,
    ensures
        r == spec_offset(d as int, rdist as int),
        -rdist <= r <= rdist,
{
    proof {
        assert(-1000 * rdist <= d * rdist <= 1000 * rdist) by (nonlinear_arith)
            requires
                -1000 <= d <= 1000,
                rdist > 0,
        ;
        let sh: int = 1_000_000_000_000_000;
        assert((sh - 1000 * rdist) / 1000 == sh / 1000 - rdist && (sh + 1000 * rdist) / 1000 == sh
            / 1000 + rdist) by (nonlinear_arith)
            requires
                0 < rdist <= 1_000_000_000,
        ;
        vstd::arithmetic::div_mod::lemma_div_is_ordered(
            sh - 1000 * rdist,
            d * rdist + sh,
            1000,
        );
        vstd::arithmetic::div_mod::lemma_div_is_ordered(
            d * rdist + sh,
            sh + 1000 * rdist,
            1000,
        );
    }
    (d * rdist + 1_000_000_000_000_000) / 1000 - 1_000_000_000_000
}

impl PoissonDiskSampler {
    /// Attempt to generate a new point of the distribution by circling
    /// around `near`, starting from a random angle, until a candidate clears
    /// the neighborhood check or the attempts are exhausted.
    fn generate_sample(&self, rand: &mut Rng, near: Point, attempts: u64) -> (r: Option<Point>)
        requires
            sampler_wf(*self),
            self.extent.spec_contains(near),
            1 <= attempts <= 1000,
        ensures
            r matches Some(p) ==> self.extent.spec_contains(p) && forall|j: int|
                0 <= j < self.points@.len() ==> spec_dist_sq(#[trigger] self.points@[j], p)
                    >= self.radius * self.radius,
    {
        let seed = rand.gen_range_u64(0, 32);
        let rdist = self.radius + 1;
        let mut i: u64 = 0;
        while i < attempts
            invariant
                sampler_wf(*self),
                self.extent.spec_contains(near),
                seed < 32,
                i <= attempts <= 1000,
                0 < rdist <= 100_000_001,
            decreases attempts - i,
        {
            let d = crate::rng::dir32(seed + i);
            let ox = mul_dir(d.x, rdist);
            let oy = mul_dir(d.y, rdist);
            let point = Point { x: near.x + ox, y: near.y + oy };
            i = i + 1;
            if !self.extent.contains(point) {
                continue;
            }
            if !self.near_point_in_grid(point) {
                proof {
                    assert forall|j: int| 0 <= j < self.points@.len() implies spec_dist_sq(
                        #[trigger] self.points@[j],
                        point,
                    ) >= self.radius * self.radius by {
                        assert(!(spec_dist_sq(self.points@[j], point) < self.radius
                            * self.radius));
                    }
                }
                return Some(point);
            }
        }
        None
    }

    /// Fill the extent: seed one random point, then repeatedly expand from a
    /// random queued point until no queued point admits a new neighbor.
    fn generate_samples(&mut self, rand: &mut Rng)
        requires
            sampler_wf(*old(self)),
            old(self).points@.len() == 0,
            old(self).queued@.len() == 0,
            forall|g: int|
                0 <= g < old(self).grid.grid@.len() ==> (#[trigger] old(self).grid.grid@[g])
                    is None,
        ensures
            sampler_wf(*final(self)),
            final(self).extent == old(self).extent,
            final(self).radius == old(self).radius,
            final(self).points@.len() >= 1,
    {
        let init = random_point_in_rect(rand, self.extent);
        let init_cell = self.cell(init);
        proof {
            lemma_grid_index_range(
                init_cell.0 as int,
                init_cell.1 as int,
                self.grid.cols as int,
                self.grid.rows as int,
            );
        }
        self.points.push(init);
        self.queued.push(0);
        self.grid.set(init_cell, Some(0));
        proof {
            assert forall|i: int| 0 <= i < self.points@.len() implies self.grid.grid@[
                #[trigger] slot_of(*self, i)] == Some(i as usize) by {
                assert(i == 0);
            }
            assert(sampler_wf(*self));
        }

        while self.queued.len() > 0
            invariant
                sampler_wf(*self),
                self.extent == old(self).extent,
                self.radius == old(self).radius,
                self.cell_size == old(self).cell_size,
                self.points@.len() >= 1,
            decreases none_count(self.grid.grid@), self.queued@.len(),
        {
            let np = self.points.len();
            let near_index = rand.gen_range_u64(0, self.queued.len() as u64) as usize;
            let near = self.points[self.queued[near_index]];
            let ghost pre = *self;

            match self.generate_sample(rand, near, 32) {
                Some(sample) => {
                    let next_point_index = self.points.len();
                    let sample_cell = self.cell(sample);
                    proof {
                        lemma_grid_index_range(
                            sample_cell.0 as int,
                            sample_cell.1 as int,
                            self.grid.cols as int,
                            self.grid.rows as int,
                        );
                        let slot = sample_cell.0 + sample_cell.1 * self.grid.cols as int;
                        // The candidate's own cell must be free: an occupant
                        // would be a registered point inside the radius.
                        if self.grid.grid@[slot] is Some {
                            let j = self.grid.grid@[slot]->0 as int;
                            lemma_cell_in_range(*self, self.points@[j]);
                            lemma_grid_index_injective(
                                sample_cell.0 as int,
                                sample_cell.1 as int,
                                cell_x(self.extent, self.cell_size as int, self.points@[j]),
                                cell_y(self.extent, self.cell_size as int, self.points@[j]),
                                self.grid.cols as int,
                            );
                            lemma_same_cell_close(
                                self.extent,
                                self.cell_size as int,
                                self.radius as int,
                                sample,
                                self.points@[j],
                            );
                            lemma_dist_sq_sym(sample, self.points@[j]);
                            assert(false);
                        }
                        lemma_none_count_update(self.grid.grid@, slot, Some(
                            next_point_index,
                        ));
                    }
                    self.points.push(sample);
                    self.queued.push(next_point_index);
                    self.grid.set(sample_cell, Some(next_point_index));
                    proof {
                        let post = *self;
                        let slot = sample_cell.0 + sample_cell.1 * post.grid.cols as int;
                        assert(post.points@ == pre.points@.push(sample));
                        assert(post.grid.grid@ == pre.grid.grid@.update(slot, Some(
                            next_point_index,
                        )));
                        assert(pre.grid.grid@[slot] is None);
                        assert forall|i: int|
                            0 <= i < post.points@.len() implies post.grid.grid@[
                            #[trigger] slot_of(post, i)] == Some(i as usize) by {
                            if i < next_point_index {
                                assert(post.points@[i] == pre.points@[i]);
                                assert(slot_of(post, i) == slot_of(pre, i));
                                lemma_cell_in_range(pre, pre.points@[i]);
                                lemma_grid_index_range(
                                    cell_x(pre.extent, pre.cell_size as int, pre.points@[i]),
                                    cell_y(pre.extent, pre.cell_size as int, pre.points@[i]),
                                    pre.grid.cols as int,
                                    pre.grid.rows as int,
                                );
                                assert(pre.grid.grid@[slot_of(pre, i)] == Some(i as usize));
                                assert(slot_of(pre, i) != slot);
                            } else {
                                assert(post.points@[i] == sample);
                                assert(slot_of(post, i) == slot);
                            }
                        }
                        assert forall|g: int|
                            0 <= g < post.grid.grid@.len() && (#[trigger] post.grid.grid@[g])
                                is Some implies {
                            let j = post.grid.grid@[g]->0 as int;
                            0 <= j < post.points@.len() && slot_of(post, j) == g
                        } by {
                            if g != slot {
                                let j = pre.grid.grid@[g]->0 as int;
                                assert(pre.grid.grid@[g] is Some);
                                assert(slot_of(pre, j) == g);
                                assert(post.points@[j] == pre.points@[j]);
                                assert(slot_of(post, j) == slot_of(pre, j));
                            }
                        }
                        assert forall|i: int, j: int|
                            0 <= i < post.points@.len() && 0 <= j < post.points@.len() && i
                                != j implies spec_dist_sq(
                            #[trigger] post.points@[i],
                            #[trigger] post.points@[j],
                        ) >= post.radius * post.radius by {
                            if i == next_point_index as int {
                                lemma_dist_sq_sym(post.points@[j], sample);
                            } else if j == next_point_index as int {
                            } else {
                                assert(spec_dist_sq(pre.points@[i], pre.points@[j]) >= pre.radius
                                    * pre.radius);
                            }
                        }
                        assert(sampler_wf(post));
                    }
                },
                None => {
                    self.queued.remove(near_index);
                    proof {
                        assert forall|k: int|
                            0 <= k < self.queued@.len() implies (#[trigger] self.queued@[k])
                            < self.points@.len() by {
                            if k < near_index {
                                assert(self.queued@[k] == pre.queued@[k]);
                            } else {
                                assert(self.queued@[k] == pre.queued@[k + 1]);
                            }
                        }
                        assert(self.points@ == pre.points@ && self.grid == pre.grid);
                        assert(self.extent == pre.extent && self.radius == pre.radius
                            && self.cell_size == pre.cell_size);
                        assert(forall|i: int|
                            0 <= i < self.points@.len() ==> self.extent.spec_contains(
                                #[trigger] self.points@[i],
                            ));
                        assert forall|i: int|
                            0 <= i < self.points@.len() implies self.grid.grid@[
                            #[trigger] slot_of(*self, i)] == Some(i as usize) by {
                            assert(slot_of(*self, i) == slot_of(pre, i));
                        }
                        assert forall|g: int|
                            0 <= g < self.grid.grid@.len() && (#[trigger] self.grid.grid@[g])
                                is Some implies {
                            let j = self.grid.grid@[g]->0 as int;
                            0 <= j < self.points@.len() && slot_of(*self, j) == g
                        } by {
                            let j = self.grid.grid@[g]->0 as int;
                            assert(slot_of(*self, j) == slot_of(pre, j));
                        }
                        assert(sampler_wf(*self));
                    }
                },
            }
        }
    }
}

/// Generate random samples within `extent` in a Poisson disk distribution,
/// with minimum `radius` separation: no two returned points are closer than
/// `radius`, and at least one point is produced.
pub fn poisson(rand: &mut Rng, extent: Extent, radius: i64) -> (r: Vec<Point>)
    requires
        extent.wf(),
        3 <= radius <= 100_000_000,
        extent.x1 - extent.x0 <= 30_000 * radius,
        extent.y1 - extent.y0 <= 30_000 * radius,
    ensures
        r@.len() >= 1,
        forall|i: int| 0 <= i < r@.len() ==> extent.spec_contains(#[trigger] r@[i]),
        forall|i: int, j: int|
            0 <= i < r@.len() && 0 <= j < r@.len() && i != j ==> spec_dist_sq(
                #[trigger] r@[i],
                #[trigger] r@[j],
            ) >= radius * radius,
        // A radius beyond the domain diagonal leaves room for exactly the
        // one seed point.
        (extent.x1 - extent.x0) * (extent.x1 - extent.x0) + (extent.y1 - extent.y0) * (extent.y1
            - extent.y0) < radius * radius ==> r@.len() == 1,
{
    proof {
        assert((radius as int) * (radius as int) <= 10_000_000_000_000_000) by (nonlinear_arith)
            requires
                0 <= radius <= 100_000_000,
        ;
    }
    let rr: u64 = (radius as u64) * (radius as u64);
    let half: u64 = rr / 2;
    let cs = isqrt(half);
    let cell_size = cs as i64;
    proof {
        vstd::arithmetic::div_mod::lemma_fundamental_div_mod(rr as int, 2);
        assert(cell_size >= 1 && cell_size <= radius && 2 * cell_size >= radius && 2 * cell_size
            * cell_size <= (radius as int) * (radius as int)) by (nonlinear_arith)
            requires
                3 <= radius <= 100_000_000,
                rr == (radius as int) * (radius as int),
                cell_size == cs as int,
                (cs as int) * (cs as int) <= half,
                (cs as int + 1) * (cs as int + 1) > half,
                2 * (half as int) <= rr < 2 * (half as int) + 2,
        ;
    }
    let w = extent.x1 - extent.x0;
    let h = extent.y1 - extent.y0;
    proof {
        assert(w <= 60_000 * cell_size && h <= 60_000 * cell_size) by (nonlinear_arith)
            requires
                w <= 30_000 * radius,
                h <= 30_000 * radius,
                radius <= 2 * cell_size,
        ;
        vstd::arithmetic::div_mod::lemma_multiply_divide_le(w as int, cell_size as int, 60_000);
        vstd::arithmetic::div_mod::lemma_multiply_divide_le(h as int, cell_size as int, 60_000);
        vstd::arithmetic::div_mod::lemma_div_pos_is_pos(w as int, cell_size as int);
        vstd::arithmetic::div_mod::lemma_div_pos_is_pos(h as int, cell_size as int);
    }
    let cols = (w / cell_size + 1) as usize;
    let rows = (h / cell_size + 1) as usize;
    let grid = SampleGrid::new(cols, rows);
    let mut sampler = PoissonDiskSampler {
        extent,
        radius,
        cell_size,
        queued: Vec::new(),
        points: Vec::new(),
        grid,
    };
    sampler.generate_samples(rand);
    proof {
        lemma_dist_sq_sym(sampler.points@[0], sampler.points@[0]);
        let pts = sampler.points@;
        let w = extent.x1 - extent.x0;
        let h = extent.y1 - extent.y0;
        if (w as int) * (w as int) + (h as int) * (h as int) < (radius as int) * (radius as int)
            && pts.len() >= 2 {
            // Two contained points would sit farther apart than the
            // diagonal allows.
            let a = pts[0];
            let b = pts[1];
            assert(spec_dist_sq(a, b) <= (w as int) * (w as int) + (h as int) * (h as int))
                by (nonlinear_arith)
                requires
                    extent.x0 <= a.x <= extent.x1 && extent.y0 <= a.y <= extent.y1,
                    extent.x0 <= b.x <= extent.x1 && extent.y0 <= b.y <= extent.y1,
                    w == extent.x1 - extent.x0,
                    h == extent.y1 - extent.y0,
                    spec_dist_sq(a, b) == (a.x - b.x) * (a.x - b.x) + (a.y - b.y) * (a.y - b.y),
            ;
            assert(spec_dist_sq(a, b) >= (radius as int) * (radius as int));
            assert(false);
        }
    }
    sampler.points
}

} // verus!
