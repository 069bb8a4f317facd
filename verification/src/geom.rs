use vstd::prelude::*;

verus! {

/// One world unit is `SCALE` coordinate steps: all geometry is carried in
/// milli-units so that every quantity is an integer.
pub const SCALE: i64 = 1000;

/// Largest magnitude a coordinate, an elevation or a feature dimension may
/// take, in milli-units. Keeps every square and cross product inside `i64`
/// and `i128` ranges.
pub const COORD_BOUND: i64 = 1_000_000_000;

/// A 2D position, in milli-units (one thousandth of a world unit).
#[derive(Clone, Copy, Debug, PartialEq, Eq, Structural)]
pub struct Point {
    pub x: i64,
    pub y: i64,
}

pub open spec fn in_bound(p: Point) -> bool {
    -COORD_BOUND <= p.x <= COORD_BOUND && -COORD_BOUND <= p.y <= COORD_BOUND
}

pub open spec fn spec_dist_sq(a: Point, b: Point) -> int {
    (a.x - b.x) * (a.x - b.x) + (a.y - b.y) * (a.y - b.y)
}

/// The squared distance between two points.
pub fn dist_sq(a: Point, b: Point) -> (d: i64)
    requires
        in_bound(a),
        in_bound(b),
    ensures
        d == spec_dist_sq(a, b),
        0 <= d <= 8_000_000_000_000_000_000,
{
    let dx = a.x - b.x;
    let dy = a.y - b.y;
    proof {
        assert(dx * dx <= 4_000_000_000_000_000_000 && dx * dx >= 0) by (nonlinear_arith)
            requires
                -2_000_000_000 <= dx <= 2_000_000_000,
        ;
        assert(dy * dy <= 4_000_000_000_000_000_000 && dy * dy >= 0) by (nonlinear_arith)
            requires
                -2_000_000_000 <= dy <= 2_000_000_000,
        ;
    }
    dx * dx + dy * dy
}

/// An axis-aligned rectangle, in milli-units, described by its two corners.
#[derive(Clone, Copy, Debug, PartialEq, Eq, Structural)]
pub struct Extent {
    pub x0: i64,
    pub y0: i64,
    pub x1: i64,
    pub y1: i64,
}

impl Extent {
    pub open spec fn wf(self) -> bool {
        self.x0 <= self.x1 && self.y0 <= self.y1 && -COORD_BOUND <= self.x0 && self.x1
            <= COORD_BOUND && -COORD_BOUND <= self.y0 && self.y1 <= COORD_BOUND
    }

    pub open spec fn spec_contains(self, p: Point) -> bool {
        self.x0 <= p.x <= self.x1 && self.y0 <= p.y <= self.y1
    }

    /// The extent `[0, w] x [0, h]`.
    pub fn from_wh(w: i64, h: i64) -> (r: Extent)
        ensures
            r == (Extent { x0: 0, y0: 0, x1: w, y1: h }),
    {
        Extent { x0: 0, y0: 0, x1: w, y1: h }
    }

    pub fn contains(&self, p: Point) -> (r: bool)
        ensures
            r == self.spec_contains(p),
    {
        self.x0 <= p.x && p.x <= self.x1 && self.y0 <= p.y && p.y <= self.y1
    }

    pub fn w(&self) -> (r: i64)
        requires
            self.wf(),
        ensures
            r == self.x1 - self.x0,
    {
        self.x1 - self.x0
    }

    pub fn h(&self) -> (r: i64)
        requires
            self.wf(),
        ensures
            r == self.y1 - self.y0,
    {
        self.y1 - self.y0
    }
}

/// An extent grown by `margin` on every side.
pub open spec fn spec_expand(rect: Extent, margin: int) -> Extent {
    Extent {
        x0: (rect.x0 - margin) as i64,
        y0: (rect.y0 - margin) as i64,
        x1: (rect.x1 + margin) as i64,
        y1: (rect.y1 + margin) as i64,
    }
}

/// Grow an extent by `margin` on every side.
pub fn expand_rect(rect: Extent, margin: i64) -> (r: Extent)
    requires
        rect.wf(),
        0 <= margin <= COORD_BOUND,
    ensures
        r == spec_expand(rect, margin as int),
{
    Extent {
        x0: rect.x0 - margin,
        y0: rect.y0 - margin,
        x1: rect.x1 + margin,
        y1: rect.y1 + margin,
    }
}

/// `isqrt(n)` is the integer square root: the greatest `r` with `r * r <= n`.
pub fn isqrt(n: u64) -> (r: u64)
    ensures
        r * r <= n,
        (r + 1) * (r + 1) > n,
        r <= 0x1_0000_0000,
{
    let mut lo: u64 = 0;
    let mut hi: u64 = 0x1_0000_0000;
    // Invariant: lo * lo <= n < hi * hi.
    proof {
        assert((0x1_0000_0000u64 as int) * (0x1_0000_0000u64 as int) > u64::MAX as int);
    }
    while lo + 1 < hi
        invariant
            lo < hi <= 0x1_0000_0000,
            lo * lo <= n,
            hi * hi > n,
        decreases hi - lo,
    {
        let mid = lo + (hi - lo) / 2;
        proof {
            assert((mid as int) * (mid as int) <= 0x1_0000_0000_0000_0000) by (nonlinear_arith)
                requires
                    0 <= mid <= 0x1_0000_0000,
            ;
        }
        let sq = (mid as u128) * (mid as u128);
        if sq <= n as u128 {
            lo = mid;
        } else {
            hi = mid;
        }
    }
    lo
}

/// Squared distance does not depend on the order of its arguments.
pub proof fn lemma_dist_sq_sym(a: Point, b: Point)
    ensures
        spec_dist_sq(a, b) == spec_dist_sq(b, a),
{
    assert((a.x - b.x) * (a.x - b.x) == (b.x - a.x) * (b.x - a.x) && (a.y - b.y) * (a.y - b.y) == (
    b.y - a.y) * (b.y - a.y)) by (nonlinear_arith);
}

} // verus!
