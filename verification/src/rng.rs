use vstd::prelude::*;

use crate::geom::{Extent, Point};

verus! {

/// Two to the sixty-fourth: the modulus of the generator's state arithmetic.
pub const TWO64: u128 = 0x1_0000_0000_0000_0000;

/// The state after one step: a fixed odd increment, modulo 2^64.
pub open spec fn spec_next_state(s: u64) -> u64 {
    ((s + 0x9E3779B97F4A7C15) % (TWO64 as int)) as u64
}

/// The output mix of a state word: xor-shift and multiply stages, modulo 2^64.
pub open spec fn spec_mix(s: u64) -> u64 {
    let a = s ^ (s >> 30);
    let b = ((a * 0xBF58476D1CE4E5B9) % (TWO64 as int)) as u64;
    let c = b ^ (b >> 27);
    let d = ((c * 0x94D049BB133111EB) % (TWO64 as int)) as u64;
    d ^ (d >> 31)
}

/// The deterministic pseudorandom stream that drives generation: all
/// randomness in a pipeline run is drawn from one value of this type, in a
/// fixed call order, so a seed reproduces the run.
#[derive(Clone, Copy, Debug, PartialEq, Eq, Structural)]
pub struct Rng {
    pub state: u64,
}

impl Rng {
    pub fn seed_from_u64(seed: u64) -> (r: Rng)
        ensures
            r.state == seed,
    {
        Rng { state: seed }
    }

    /// The next word of the stream.
    pub fn next_u64(&mut self) -> (r: u64)
        ensures
            final(self).state == spec_next_state(old(self).state),
            r == spec_mix(final(self).state),
    {
        let s = ((self.state as u128 + 0x9E3779B97F4A7C15u128) % TWO64) as u64;
        self.state = s;
        let a = s ^ (s >> 30);
        let b = ((a as u128 * 0xBF58476D1CE4E5B9u128) % TWO64) as u64;
        let c = b ^ (b >> 27);
        let d = ((c as u128 * 0x94D049BB133111EBu128) % TWO64) as u64;
        d ^ (d >> 31)
    }

    /// A value in `[lo, hi)`.
    pub fn gen_range_u64(&mut self, lo: u64, hi: u64) -> (r: u64)
        requires
            lo < hi,
        ensures
            final(self).state == spec_next_state(old(self).state),
            r == lo + spec_mix(final(self).state) % ((hi - lo) as u64),
            lo <= r < hi,
    {
        let w = self.next_u64();
        lo + w % (hi - lo)
    }

    /// A value in `[lo, hi)`.
    pub fn gen_range_i64(&mut self, lo: i64, hi: i64) -> (r: i64)
        requires
            lo < hi,
            hi - lo <= i64::MAX,
        ensures
            final(self).state == spec_next_state(old(self).state),
            r == lo + spec_mix(final(self).state) % ((hi - lo) as u64),
            lo <= r < hi,
    {
        let w = self.next_u64();
        let span = (hi - lo) as u64;
        lo + (w % span) as i64
    }

    /// True with probability `percent` out of one hundred.
    pub fn gen_bool_percent(&mut self, percent: u64) -> (r: bool)
        requires
            percent <= 100,
        ensures
            final(self).state == spec_next_state(old(self).state),
            r == (spec_mix(final(self).state) % 100 < percent),
    {
        let w = self.next_u64();
        w % 100 < percent
    }
}

/// The thirty-two evenly spaced unit directions, at fixed-point scale: entry
/// `k` is `(cos, sin)` of `k` thirty-seconds of a full turn, in milli-units.
pub open spec fn spec_dir32(k: int) -> Point {
    let c = seq![
        1000i64, 981, 924, 831, 707, 556, 383, 195, 0, (-195i64), (-383i64), (-556i64), (-707i64), (-831i64), (-924i64), (-981i64),
        (-1000i64), (-981i64), (-924i64), (-831i64), (-707i64), (-556i64), (-383i64), (-195i64), 0, 195, 383, 556, 707, 831, 924, 981,
    ];
    let s = seq![
        0i64, 195, 383, 556, 707, 831, 924, 981, 1000, 981, 924, 831, 707, 556, 383, 195, 0, (-195i64),
        (-383i64), (-556i64), (-707i64), (-831i64), (-924i64), (-981i64), (-1000i64), (-981i64), (-924i64), (-831i64), (-707i64), (-556i64), (-383i64), (-195i64),
    ];
    Point { x: c[k % 32], y: s[k % 32] }
}

/// Direction `k mod 32` from the table.
pub fn dir32(k: u64) -> (r: Point)
    ensures
        r == spec_dir32(k as int),
        -1000 <= r.x <= 1000 && -1000 <= r.y <= 1000,
{
    let cos_table: [i64; 32] = [
        1000i64, 981, 924, 831, 707, 556, 383, 195, 0, -195, -383, -556, -707, -831, -924, -981,
        -1000, -981, -924, -831, -707, -556, -383, -195, 0, 195, 383, 556, 707, 831, 924, 981,
    ];
    let sin_table: [i64; 32] = [
        0i64, 195, 383, 556, 707, 831, 924, 981, 1000, 981, 924, 831, 707, 556, 383, 195, 0, -195,
        -383, -556, -707, -831, -924, -981, -1000, -981, -924, -831, -707, -556, -383, -195,
    ];
    let i = (k % 32) as usize;
    let r = Point { x: cos_table[i], y: sin_table[i] };
    proof {
        assert(k as int % 32 == (k % 32) as int);
    }
    r
}

/// Returns a unit direction (scaled by one thousand) drawn from the stream.
pub fn random_dir(rand: &mut Rng) -> (r: Point)
    ensures
        final(rand).state == spec_next_state(old(rand).state),
        r == spec_dir32(spec_mix(final(rand).state) as int),
        -1000 <= r.x <= 1000 && -1000 <= r.y <= 1000,
{
    let w = rand.next_u64();
    let d = dir32(w);
    proof {
        assert(w as int % 32 == (w % 32) as int);
        assert(spec_dir32(w as int) == spec_dir32(w as int % 32));
    }
    d
}

/// Returns a random point in the rect.
pub fn random_point_in_rect(rand: &mut Rng, rect: Extent) -> (r: Point)
    requires
        rect.wf(),
    ensures
        rect.spec_contains(r),
        r.x == rect.x0 + spec_mix(spec_next_state(old(rand).state)) % ((rect.x1 - rect.x0
            + 1) as u64),
        r.y == rect.y0 + spec_mix(spec_next_state(spec_next_state(old(rand).state))) % ((rect.y1
            - rect.y0 + 1) as u64),
        final(rand).state == spec_next_state(spec_next_state(old(rand).state)),
{
    let x = rand.gen_range_i64(rect.x0, rect.x1 + 1);
    let y = rand.gen_range_i64(rect.y0, rect.y1 + 1);
    Point { x, y }
}

} // verus!
