use vstd::prelude::*;

use crate::geom::SCALE;

verus! {

/// Clamp a fixed-point fraction into `[0, 1]` (that is, `[0, SCALE]`).
pub open spec fn spec_saturate(n: int) -> int {
    if n < 0 {
        0
    } else if n > SCALE {
        SCALE as int
    } else {
        n
    }
}

pub fn saturate(n: i64) -> (r: i64)
    ensures
        r == spec_saturate(n as int),
{
    if n < 0 {
        0
    } else if n > SCALE {
        SCALE
    } else {
        n
    }
}

/// Magnitude cap on the arguments of the interpolation helpers, so that the
/// intermediate products stay far inside `i128`.
pub const MAP_BOUND: i64 = 1_000_000_000_000_000;

pub open spec fn spec_map_clamp(
    val: int,
    in_min: int,
    in_max: int,
    out_min: int,
    out_max: int,
) -> int {
    let v = if val < in_min {
        in_min
    } else if val > in_max {
        in_max
    } else {
        val
    };
    out_min + (v - in_min) * (out_max - out_min) / (in_max - in_min)
}

/// Map `val` from `[in_min, in_max]` to `[out_min, out_max]`, clamping into
/// the output range.
pub fn map_clamp(val: i64, in_min: i64, in_max: i64, out_min: i64, out_max: i64) -> (r: i64)
    requires
        in_min < in_max,
        out_min <= out_max,
        -MAP_BOUND <= val <= MAP_BOUND,
        -MAP_BOUND <= in_min && in_max <= MAP_BOUND,
        -MAP_BOUND <= out_min && out_max <= MAP_BOUND,
    ensures
        r == spec_map_clamp(val as int, in_min as int, in_max as int, out_min as int,
            out_max as int),
        out_min <= r <= out_max,
{
    let v = if val < in_min {
        in_min
    } else if val > in_max {
        in_max
    } else {
        val
    };
    proof {
        assert(0 <= (v - in_min) as int * (out_max - out_min) as int <= (in_max - in_min) as int
            * (out_max - out_min) as int <= 4_000_000_000_000_000_000_000_000_000_000)
            by (nonlinear_arith)
            requires
                0 <= (v - in_min) as int <= (in_max - in_min) as int <= 2 * MAP_BOUND,
                0 <= (out_max - out_min) as int <= 2 * MAP_BOUND,
        ;
    }
    let num = (v - in_min) as i128 * (out_max - out_min) as i128;
    let den = (in_max - in_min) as i128;
    let t = num / den;
    proof {
        assert(0 <= t <= (out_max - out_min) as i128) by (nonlinear_arith)
            requires
                den > 0,
                0 <= num <= den * (out_max - out_min) as i128,
                t == num / den,
        ;
    }
    out_min + t as i64
}

/// Interpolate a fixed-point fraction `val` of the way from `min` to `max`.
pub open spec fn spec_lerp(val: int, min: int, max: int) -> int {
    min + val * (max - min) / (SCALE as int)
}

pub fn lerp(val: i64, min: i64, max: i64) -> (r: i64)
    requires
        min <= max,
        0 <= val <= SCALE,
        -MAP_BOUND <= min && max <= MAP_BOUND,
    ensures
        r == spec_lerp(val as int, min as int, max as int),
        min <= r <= max,
{
    proof {
        assert(0 <= val as int * (max - min) as int <= SCALE as int * (max - min) as int
            <= 0x1000_0000_0000_0000_0000_0000) by (nonlinear_arith)
            requires
                0 <= val <= SCALE,
                0 <= (max - min) as int <= 2 * MAP_BOUND,
        ;
    }
    let num = val as i128 * (max - min) as i128;
    let t = num / SCALE as i128;
    proof {
        assert(0 <= t <= (max - min) as i128) by (nonlinear_arith)
            requires
                0 <= num <= (SCALE as i128) * (max - min) as i128,
                t == num / (SCALE as i128),
        ;
    }
    min + t as i64
}

/// The fixed-point fraction of the way `val` is from `min` to `max`.
pub open spec fn spec_unlerp(val: int, min: int, max: int) -> int {
    (val - min) * (SCALE as int) / (max - min)
}

pub fn unlerp(val: i64, min: i64, max: i64) -> (r: i64)
    requires
        min < max,
        min <= val <= max,
        -MAP_BOUND <= min && max <= MAP_BOUND,
    ensures
        r == spec_unlerp(val as int, min as int, max as int),
        0 <= r <= SCALE,
{
    proof {
        assert(0 <= (val - min) as int * SCALE as int <= (max - min) as int * SCALE as int
            <= 0x1000_0000_0000_0000_0000_0000) by (nonlinear_arith)
            requires
                0 <= (val - min) as int <= (max - min) as int <= 2 * MAP_BOUND,
        ;
    }
    let num = (val - min) as i128 * SCALE as i128;
    let den = (max - min) as i128;
    let t = num / den;
    proof {
        assert(0 <= t <= SCALE as i128) by (nonlinear_arith)
            requires
                den > 0,
                0 <= num <= den * SCALE as i128,
                t == num / den,
        ;
    }
    t as i64
}

/// The position of the first maximum of the slice, or `None` when empty.
pub fn max_position(arr: &Vec<i64>) -> (r: Option<usize>)
    ensures
        r is None <==> arr@.len() == 0,
        r is Some ==> {
            let i = r->Some_0 as int;
            &&& 0 <= i < arr@.len()
            &&& forall|j: int| 0 <= j < arr@.len() ==> #[trigger] arr@[j] <= arr@[i]
            &&& forall|j: int| 0 <= j < i ==> #[trigger] arr@[j] < arr@[i]
        },
{
    if arr.len() == 0 {
        return None;
    }
    let mut max_value = arr[0];
    let mut max_index: usize = 0;
    let mut i: usize = 1;
    while i < arr.len()
        invariant
            1 <= i <= arr@.len(),
            max_index < i,
            max_value == arr@[max_index as int],
            forall|j: int| 0 <= j < i ==> #[trigger] arr@[j] <= max_value,
            forall|j: int| 0 <= j < max_index ==> #[trigger] arr@[j] < max_value,
        decreases arr@.len() - i,
    {
        if max_value < arr[i] {
            max_value = arr[i];
            max_index = i;
        }
        i = i + 1;
    }
    Some(max_index)
}

/// The least element of a non-empty prefix-fold order: the minimum.
pub open spec fn seq_min(s: Seq<i64>) -> int
    recommends
        s.len() > 0,
    decreases s.len(),
{
    if s.len() <= 1 {
        s[0] as int
    } else {
        let prev = seq_min(s.drop_last());
        if s.last() < prev {
            s.last() as int
        } else {
            prev
        }
    }
}

pub open spec fn seq_max(s: Seq<i64>) -> int
    recommends
        s.len() > 0,
    decreases s.len(),
{
    if s.len() <= 1 {
        s[0] as int
    } else {
        let prev = seq_max(s.drop_last());
        if s.last() > prev {
            s.last() as int
        } else {
            prev
        }
    }
}

/// Returns the min and max values of a slice, or `None` when empty.
pub fn minmax(arr: &Vec<i64>) -> (r: Option<(i64, i64)>)
    ensures
        r is None <==> arr@.len() == 0,
        r is Some ==> r->Some_0.0 == seq_min(arr@) && r->Some_0.1 == seq_max(arr@),
{
    if arr.len() == 0 {
        return None;
    }
    let mut min = arr[0];
    let mut max = arr[0];
    let mut i: usize = 1;
    while i < arr.len()
        invariant
            1 <= i <= arr@.len(),
            min == seq_min(arr@.take(i as int)),
            max == seq_max(arr@.take(i as int)),
        decreases arr@.len() - i,
    {
        proof {
            assert(arr@.take(i + 1).drop_last() =~= arr@.take(i as int));
        }
        if arr[i] < min {
            min = arr[i];
        }
        if arr[i] > max {
            max = arr[i];
        }
        i = i + 1;
    }
    proof {
        assert(arr@.take(arr@.len() as int) =~= arr@);
    }
    Some((min, max))
}

pub proof fn lemma_minmax_bounds(s: Seq<i64>)
    requires
        s.len() > 0,
    ensures
        forall|j: int| 0 <= j < s.len() ==> seq_min(s) <= #[trigger] s[j] <= seq_max(s),
        exists|j: int| 0 <= j < s.len() && s[j] == seq_min(s),
        exists|j: int| 0 <= j < s.len() && s[j] == seq_max(s),
    decreases s.len(),
{
    if s.len() == 1 {
        assert(s[0] == seq_min(s) && s[0] == seq_max(s));
    } else {
        let d = s.drop_last();
        lemma_minmax_bounds(d);
        assert(forall|j: int| 0 <= j < s.len() - 1 ==> d[j] == #[trigger] s[j]);
        let jm = choose|j: int| 0 <= j < d.len() && d[j] == seq_min(d);
        let jx = choose|j: int| 0 <= j < d.len() && d[j] == seq_max(d);
        assert(s[s.len() - 1] == s.last());
        if s.last() < seq_min(d) {
            assert(s[s.len() - 1] == seq_min(s));
        } else {
            assert(s[jm] == seq_min(s));
        }
        if s.last() > seq_max(d) {
            assert(s[s.len() - 1] == seq_max(s));
        } else {
            assert(s[jx] == seq_max(s));
        }
    }
}

/// Rescale a slice so that its minimum maps to 0 and its maximum to `scale`
/// (all zero when the values are all equal).
pub fn normalize(arr: &mut Vec<i64>, scale: i64)
    requires
        0 < scale <= SCALE * SCALE,
        forall|i: int|
            0 <= i < old(arr)@.len() ==> -MAP_BOUND <= #[trigger] old(arr)@[i] <= MAP_BOUND,
    ensures
        final(arr)@.len() == old(arr)@.len(),
        forall|i: int|
            0 <= i < old(arr)@.len() ==> #[trigger] final(arr)@[i] == spec_normalized(
                old(arr)@,
                scale as int,
                i,
            ),
        forall|i: int| 0 <= i < final(arr)@.len() ==> 0 <= #[trigger] final(arr)@[i] <= scale,
{
    let r = minmax(arr);
    match r {
        None => {
        },
        Some((min, max)) => {
            proof {
                lemma_minmax_bounds(arr@);
            }
            if min == max {
                let mut i: usize = 0;
                while i < arr.len()
                    invariant
                        i <= arr@.len(),
                        arr@.len() == old(arr)@.len(),
                        min == seq_min(old(arr)@) && max == seq_max(old(arr)@),
                        min == max,
                        forall|j: int|
                            i <= j < arr@.len() ==> #[trigger] arr@[j] == old(arr)@[j],
                        forall|j: int| 0 <= j < i ==> #[trigger] arr@[j] == 0,
                    decreases arr@.len() - i,
                {
                    arr.set(i, 0);
                    i = i + 1;
                }
            } else {
                let mut i: usize = 0;
                while i < arr.len()
                    invariant
                        i <= arr@.len(),
                        arr@.len() == old(arr)@.len(),
                        min == seq_min(old(arr)@) && max == seq_max(old(arr)@),
                        min < max,
                        -MAP_BOUND <= min && max <= MAP_BOUND,
                        0 < scale <= SCALE * SCALE,
                        forall|j: int|
                            i <= j < arr@.len() ==> #[trigger] arr@[j] == old(arr)@[j],
                        forall|j: int|
                            0 <= j < old(arr)@.len() ==> min <= #[trigger] old(arr)@[j] <= max,
                        forall|j: int|
                            0 <= j < i ==> #[trigger] arr@[j] == spec_normalized(
                                old(arr)@,
                                scale as int,
                                j,
                            ) && 0 <= arr@[j] <= scale,
                    decreases arr@.len() - i,
                {
                    proof {
                        assert(arr@[i as int] == old(arr)@[i as int]);
                    }
                    let v = map_clamp(arr[i], min, max, 0, scale);
                    arr.set(i, v);
                    i = i + 1;
                }
            }
        },
    }
}

/// What `normalize` leaves at index `i`.
pub open spec fn spec_normalized(s: Seq<i64>, scale: int, i: int) -> int {
    if seq_min(s) == seq_max(s) {
        0
    } else {
        spec_map_clamp(s[i] as int, seq_min(s), seq_max(s), 0, scale)
    }
}

/// The sum of `values` over the positions in `indices`.
pub open spec fn indexed_sum(values: Seq<i64>, indices: Seq<usize>) -> int
    decreases indices.len(),
{
    if indices.len() == 0 {
        0
    } else {
        indexed_sum(values, indices.drop_last()) + values[indices.last() as int]
    }
}

/// The floor of the mean of `values` over the positions in `indices` (zero
/// for an empty subset).
pub open spec fn spec_indexed_mean(values: Seq<i64>, indices: Seq<usize>) -> int {
    if indices.len() == 0 {
        0
    } else {
        (indexed_sum(values, indices) + indices.len() * MAP_BOUND) / indices.len() as int
            - MAP_BOUND
    }
}

proof fn lemma_indexed_sum_bound(values: Seq<i64>, indices: Seq<usize>)
    requires
        forall|i: int| 0 <= i < indices.len() ==> (#[trigger] indices[i]) < values.len(),
        forall|j: int| 0 <= j < values.len() ==> -MAP_BOUND <= #[trigger] values[j] <= MAP_BOUND,
    ensures
        -(MAP_BOUND as int) * indices.len() <= indexed_sum(values, indices) <= (MAP_BOUND as int)
            * indices.len(),
    decreases indices.len(),
{
    if indices.len() > 0 {
        lemma_indexed_sum_bound(values, indices.drop_last());
        assert((MAP_BOUND as int) * indices.len() == (MAP_BOUND as int) * (indices.len() - 1)
            + MAP_BOUND) by (nonlinear_arith);
    }
}

/// Find the mean of `values` for a subset of `indices` (zero for an empty
/// subset).
pub fn indexed_mean(values: &Vec<i64>, indices: &Vec<usize>) -> (r: i64)
    requires
        forall|i: int|
            0 <= i < indices@.len() ==> (#[trigger] indices@[i]) < values@.len(),
        forall|j: int| 0 <= j < values@.len() ==> -MAP_BOUND <= #[trigger] values@[j] <= MAP_BOUND,
    ensures
        r == spec_indexed_mean(values@, indices@),
{
    if indices.len() == 0 {
        return 0;
    }
    let nlen = indices.len();
    let mut sum: i128 = 0;
    let mut i: usize = 0;
    while i < nlen
        invariant
            nlen == indices@.len(),
            i <= indices@.len(),
            indices@.len() <= 0x1_0000_0000_0000_0000,
            forall|k: int| 0 <= k < indices@.len() ==> (#[trigger] indices@[k]) < values@.len(),
            forall|j: int|
                0 <= j < values@.len() ==> -MAP_BOUND <= #[trigger] values@[j] <= MAP_BOUND,
            sum == indexed_sum(values@, indices@.take(i as int)),
        decreases indices@.len() - i,
    {
        proof {
            assert(indices@.take(i + 1).drop_last() =~= indices@.take(i as int));
            lemma_indexed_sum_bound(values@, indices@.take(i as int));
            assert((MAP_BOUND as int) * (i as int) <= (MAP_BOUND as int)
                * 0x1_0000_0000_0000_0000 && -(MAP_BOUND as int) * (i as int) >= -(
            MAP_BOUND as int) * 0x1_0000_0000_0000_0000) by (nonlinear_arith)
                requires
                    0 <= i as int <= 0x1_0000_0000_0000_0000,
            ;
        }
        sum = sum + values[indices[i]] as i128;
        i = i + 1;
    }
    proof {
        assert(indices@.take(indices@.len() as int) =~= indices@);
        lemma_indexed_sum_bound(values@, indices@);
        assert((MAP_BOUND as int) * (indices@.len() as int) <= (MAP_BOUND as int)
            * 0x1_0000_0000_0000_0000 && -(MAP_BOUND as int) * (indices@.len() as int) >= -(
        MAP_BOUND as int) * 0x1_0000_0000_0000_0000) by (nonlinear_arith)
            requires
                0 <= indices@.len() as int <= 0x1_0000_0000_0000_0000,
        ;
    }
    let n = indices.len() as i128;
    proof {
        assert((MAP_BOUND as i128) * n <= (MAP_BOUND as i128) * 0x1_0000_0000_0000_0000)
            by (nonlinear_arith)
            requires
                0 < n <= 0x1_0000_0000_0000_0000,
        ;
        let shifted = sum + n * (MAP_BOUND as i128);
        assert(0 <= shifted <= 2 * n * (MAP_BOUND as i128)) by (nonlinear_arith)
            requires
                -(MAP_BOUND as i128) * n <= sum <= (MAP_BOUND as i128) * n,
                shifted == sum + n * (MAP_BOUND as i128),
        ;
        assert(0 <= shifted / (n as int) <= 2 * (MAP_BOUND as int)) by (nonlinear_arith)
            requires
                n > 0,
                0 <= shifted <= 2 * n * (MAP_BOUND as i128),
        ;
    }
    let mean = (sum + n * MAP_BOUND as i128) / n - MAP_BOUND as i128;
    mean as i64
}

} // verus!
