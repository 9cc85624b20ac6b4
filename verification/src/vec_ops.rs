//! Primitive numeric operations of the engine: dot product, min-max
//! normalization, log-scaled normalization and value clipping, all over
//! fixed-point numbers (`i64` scaled by [`SCALE`]).

use vstd::prelude::*;

verus! {

/// Fixed-point unit: an `i64` value `x` stands for the real number `x / SCALE`.
pub const SCALE: i64 = 1_000_000;

/// Clipping bound applied to aggregated taste vectors (the real value `10.0`).
pub const CLIP_VALUE: i64 = 10_000_000;

/// Largest magnitude a vector component may have (the real value `16.0`).
/// Keeps every dot product of two bounded vectors inside `i64`.
pub const COORD_LIMIT: i64 = 16_000_000;

/// Largest embedding dimension the engine accepts.
pub const DIM_LIMIT: usize = 16_384;

/// Largest magnitude a preference weight may have (the real value `1000.0`).
pub const WEIGHT_LIMIT: i64 = 1_000_000_000;

/// Absolute value.
pub open spec fn abs_val(x: int) -> int {
    if x < 0 {
        -x
    } else {
        x
    }
}

/// Integer division truncating toward zero, for a positive divisor.
pub open spec fn div_trunc(a: int, b: int) -> int
    recommends
        b > 0,
{
    if a >= 0 {
        a / b
    } else {
        -((-a) / b)
    }
}

/// `x` clamped to the interval `[-b, b]`.
pub open spec fn clip_val(x: int, b: int) -> int {
    if x < -b {
        -b
    } else if x > b {
        b
    } else {
        x
    }
}

/// Sum of the first `n` component products of `a` and `b`.
pub open spec fn dot_seq(a: Seq<i64>, b: Seq<i64>, n: int) -> int
    decreases n,
{
    if n <= 0 {
        0
    } else {
        dot_seq(a, b, n - 1) + a[n - 1] * b[n - 1]
    }
}

/// Dot product of two equal-length vectors.
pub open spec fn dot_spec(a: Seq<i64>, b: Seq<i64>) -> int
    recommends
        a.len() == b.len(),
{
    dot_seq(a, b, a.len() as int)
}

/// Every component of `v` has magnitude at most `COORD_LIMIT`.
pub open spec fn coords_bounded(v: Seq<i64>) -> bool {
    forall|i: int| 0 <= i < v.len() ==> -COORD_LIMIT <= #[trigger] v[i] <= COORD_LIMIT
}

/// A partial dot product of bounded vectors is bounded by `n` times the
/// largest possible component product.
proof fn lemma_dot_seq_bound(a: Seq<i64>, b: Seq<i64>, n: int)
    requires
        coords_bounded(a),
        coords_bounded(b),
        0 <= n <= a.len(),
        n <= b.len(),
    ensures
        abs_val(dot_seq(a, b, n)) <= n * (COORD_LIMIT as int) * (COORD_LIMIT as int),
    decreases n,
{
    if n > 0 {
        lemma_dot_seq_bound(a, b, n - 1);
        assert(abs_val(a[n - 1] * b[n - 1]) <= (COORD_LIMIT as int) * (COORD_LIMIT as int))
            by (nonlinear_arith)
            requires
                -COORD_LIMIT <= a[n - 1] <= COORD_LIMIT,
                -COORD_LIMIT <= b[n - 1] <= COORD_LIMIT,
        ;
        assert(n * (COORD_LIMIT as int) * (COORD_LIMIT as int) == (n - 1) * (COORD_LIMIT as int)
            * (COORD_LIMIT as int) + (COORD_LIMIT as int) * (COORD_LIMIT as int))
            by (nonlinear_arith);
    }
}

/// Dot product of two vectors of equal length.
///
/// The length precondition is the caller's responsibility: mismatched
/// lengths are a caller bug, checked further out at the engine boundary.
pub fn dot(a: &Vec<i64>, b: &Vec<i64>) -> (r: i64)
    requires
        a@.len() == b@.len(),
        a@.len() <= DIM_LIMIT,
        coords_bounded(a@),
        coords_bounded(b@),
    ensures
        r == dot_spec(a@, b@),
{
    let mut acc: i64 = 0;
    let mut i: usize = 0;
    while i < a.len()
        invariant
            a@.len() == b@.len(),
            a@.len() <= DIM_LIMIT,
            coords_bounded(a@),
            coords_bounded(b@),
            0 <= i <= a@.len(),
            acc == dot_seq(a@, b@, i as int),
            abs_val(acc as int) <= (i as int) * (COORD_LIMIT as int) * (COORD_LIMIT as int),
        decreases a@.len() - i,
    {
        proof {
            lemma_dot_seq_bound(a@, b@, i as int);
            assert(abs_val(a@[i as int] * b@[i as int]) <= (COORD_LIMIT as int) * (
            COORD_LIMIT as int)) by (nonlinear_arith)
                requires
                    -COORD_LIMIT <= a@[i as int] <= COORD_LIMIT,
                    -COORD_LIMIT <= b@[i as int] <= COORD_LIMIT,
            ;
            assert(((i + 1) as int) * (COORD_LIMIT as int) * (COORD_LIMIT as int) == (i as int) * (
            COORD_LIMIT as int) * (COORD_LIMIT as int) + (COORD_LIMIT as int) * (COORD_LIMIT as int))
                by (nonlinear_arith);
            assert((DIM_LIMIT as int) * (COORD_LIMIT as int) * (COORD_LIMIT as int)
                < 0x7fff_ffff_ffff_ffff) by (nonlinear_arith);
            assert(((i + 1) as int) * (COORD_LIMIT as int) * (COORD_LIMIT as int) <= (
            DIM_LIMIT as int) * (COORD_LIMIT as int) * (COORD_LIMIT as int)) by (nonlinear_arith)
                requires
                    0 <= i,
                    i + 1 <= DIM_LIMIT,
            ;
        }
        let p: i64 = a[i] * b[i];
        acc = acc + p;
        i = i + 1;
    }
    acc
}

/// Linear rescale of `v` onto `[0, SCALE]` relative to the range
/// `[min, max]`; a degenerate range (`max <= min`) gives `0`.
pub open spec fn min_max_norm_spec(v: int, min: int, max: int) -> int {
    if max <= min {
        0
    } else if v <= min {
        0
    } else if (v - min) * (SCALE as int) / (max - min) >= SCALE as int {
        SCALE as int
    } else {
        (v - min) * (SCALE as int) / (max - min)
    }
}

/// Min-max normalization: rescales `value` linearly so that `min` maps to
/// `0` and `max` to `SCALE` (the fixed-point `1.0`), clamped to that range.
/// A degenerate range (`max <= min`) gives `0` rather than an error.
pub fn norm(value: i64, min: i64, max: i64) -> (r: i64)
    ensures
        r == min_max_norm_spec(value as int, min as int, max as int),
        0 <= r <= SCALE,
{
    if max <= min {
        return 0;
    }
    if value <= min {
        return 0;
    }
    let d: i128 = value as i128 - min as i128;
    proof {
        assert((d as int) * (SCALE as int) <= 0xffff_ffff_ffff_ffffint * 0xf_4240)
            by (nonlinear_arith)
            requires
                1 <= d <= 0xffff_ffff_ffff_ffff,
                SCALE == 0xf_4240,
        ;
    }
    let num: u128 = (d as u128) * (SCALE as u128);
    let den: u128 = (max as i128 - min as i128) as u128;
    let q: u128 = num / den;
    if q >= SCALE as u128 {
        SCALE
    } else {
        q as i64
    }
}

/// `ln(2)` in fixed-point units.
pub const LN2: i64 = 693_147;

/// Largest `k` with `pow2(k) <= x`, for `x >= 1`.
pub open spec fn floor_log2(x: int) -> int
    recommends
        x >= 1,
    decreases x,
{
    if x < 2 {
        0
    } else {
        1 + floor_log2(x / 2)
    }
}

/// Two to the power `k`.
pub open spec fn pow2_int(k: int) -> int
    recommends
        k >= 0,
    decreases k,
{
    if k <= 0 {
        1
    } else {
        2 * pow2_int(k - 1)
    }
}

/// Fixed-point natural logarithm of `n + 1`: exact at powers of two
/// (`k * LN2` at `n + 1 == pow2(k)`) and linearly interpolated between them.
pub open spec fn ln1p_spec(n: int) -> int
    recommends
        n >= 0,
{
    let x = n + 1;
    let k = floor_log2(x);
    k * (LN2 as int) + (x - pow2_int(k)) * (LN2 as int) / pow2_int(k)
}

proof fn lemma_pow2_positive(k: int)
    ensures
        pow2_int(k) >= 1,
    decreases k,
{
    if k > 0 {
        lemma_pow2_positive(k - 1);
    }
}

/// Two to the `k` strictly dominates `k`.
proof fn lemma_pow2_above_exponent(k: int)
    requires
        k >= 0,
    ensures
        pow2_int(k) >= k + 1,
    decreases k,
{
    if k > 0 {
        lemma_pow2_above_exponent(k - 1);
    }
}

/// `floor_log2` is characterized by the power-of-two interval holding `x`.
proof fn lemma_floor_log2(x: int, k: int)
    requires
        k >= 0,
        pow2_int(k) <= x,
        x < pow2_int(k + 1),
    ensures
        floor_log2(x) == k,
    decreases k,
{
    lemma_pow2_positive(k);
    if k == 0 {
        assert(x == 1);
    } else {
        lemma_pow2_positive(k - 1);
        assert(x >= 2);
        assert(pow2_int(k) == 2 * pow2_int(k - 1));
        assert(pow2_int(k + 1) == 2 * pow2_int(k));
        assert(pow2_int(k - 1) <= x / 2 && x / 2 < pow2_int(k)) by {
            assert(2 * pow2_int(k - 1) <= x);
            assert(x < 2 * pow2_int(k));
        }
        lemma_floor_log2(x / 2, k - 1);
    }
}

/// Fixed-point natural logarithm of `value + 1`; the shift by one avoids
/// the logarithm of zero, so the result of `0` is exactly `0`.
pub fn ln1p_fixed(value: u32) -> (r: i64)
    ensures
        r == ln1p_spec(value as int),
        r >= 0,
        value == 0 ==> r == 0,
{
    let x: u64 = value as u64 + 1;
    let mut k: u64 = 0;
    let mut p: u64 = 1;
    while 2 * p <= x
        invariant
            1 <= x <= 0x1_0000_0001,
            p == pow2_int(k as int),
            p <= x,
            k < p,
        decreases x - p,
    {
        proof {
            lemma_pow2_above_exponent(k as int + 1);
        }
        p = 2 * p;
        k = k + 1;
    }
    proof {
        lemma_floor_log2(x as int, k as int);
        lemma_pow2_positive(k as int);
    }
    let rem: u64 = x - p;
    let frac: u64 = rem * (LN2 as u64) / p;
    let r: i64 = (k * (LN2 as u64) + frac) as i64;
    proof {
        assert(rem * (LN2 as int) <= p * (LN2 as int)) by (nonlinear_arith)
            requires
                0 <= rem <= p,
                LN2 > 0,
        ;
        assert(rem as int * (LN2 as int) / (p as int) <= (p as int) * (LN2 as int) / (p as int))
            by {
            vstd::arithmetic::div_mod::lemma_div_is_ordered(
                rem as int * (LN2 as int),
                p as int * (LN2 as int),
                p as int,
            );
        }
        assert((p as int) * (LN2 as int) / (p as int) == LN2 as int) by {
            vstd::arithmetic::div_mod::lemma_div_multiples_vanish(LN2 as int, p as int);
        }
    }
    r
}

/// Log-scaled normalization of a non-negative integer count: applies the
/// fixed-point `ln(value + 1)` and then min-max normalization against the
/// log-domain bounds.
pub fn log_norm(value: u32, min_log: i64, max_log: i64) -> (r: i64)
    ensures
        r == min_max_norm_spec(ln1p_spec(value as int), min_log as int, max_log as int),
        0 <= r <= SCALE,
{
    let v: i64 = ln1p_fixed(value);
    norm(v, min_log, max_log)
}

/// The count `0` is normalized exactly like the raw log-domain value `0`:
/// the `+ 1` inside the logarithm makes `ln(0 + 1)` vanish.
pub proof fn lemma_log_norm_at_zero(min_log: int, max_log: int)
    ensures
        min_max_norm_spec(ln1p_spec(0), min_log, max_log) == min_max_norm_spec(
            0,
            min_log,
            max_log,
        ),
{
    assert(ln1p_spec(0) == 0);
}

/// Clamps every component of `v` to `[-bound, bound]`, in place.
///
/// Used to bound the influence of any single aggregated signal before it
/// re-enters a dot product.
pub fn clip(v: &mut Vec<i64>, bound: i64)
    requires
        bound >= 0,
    ensures
        final(v)@.len() == old(v)@.len(),
        forall|i: int|
            0 <= i < old(v)@.len() ==> final(v)@[i] == clip_val(old(v)@[i] as int, bound as int),
        forall|i: int| 0 <= i < final(v)@.len() ==> -bound <= #[trigger] final(v)@[i] <= bound,
{
    let mut i: usize = 0;
    while i < v.len()
        invariant
            bound >= 0,
            v@.len() == old(v)@.len(),
            0 <= i <= v@.len(),
            forall|j: int|
                0 <= j < i ==> v@[j] == clip_val(old(v)@[j] as int, bound as int),
            forall|j: int| i <= j < v@.len() ==> v@[j] == old(v)@[j],
        decreases v@.len() - i,
    {
        if v[i] > bound {
            v[i] = bound;
        } else if v[i] < -bound {
            v[i] = -bound;
        }
        i = i + 1;
    }
}

/// A pair is valid when its embedding has the dimension established by the
/// first pair; other pairs are defensively skipped, never an error.
pub open spec fn pair_valid(pairs: Seq<(Vec<i64>, i64)>, i: int) -> bool {
    pairs[i].0@.len() == pairs[0].0@.len()
}

/// Sum of the absolute weights of the valid pairs among the first `n`.
pub open spec fn weight_sum(pairs: Seq<(Vec<i64>, i64)>, n: int) -> int
    decreases n,
{
    if n <= 0 {
        0
    } else {
        weight_sum(pairs, n - 1) + if pair_valid(pairs, n - 1) {
            abs_val(pairs[n - 1].1 as int)
        } else {
            0
        }
    }
}

/// Component `j` of the absolute-weighted embedding sum over the valid
/// pairs among the first `n`.
pub open spec fn weighted_sum_at(pairs: Seq<(Vec<i64>, i64)>, j: int, n: int) -> int
    decreases n,
{
    if n <= 0 {
        0
    } else {
        weighted_sum_at(pairs, j, n - 1) + if pair_valid(pairs, n - 1) {
            pairs[n - 1].0@[j] * abs_val(pairs[n - 1].1 as int)
        } else {
            0
        }
    }
}

/// The centroid exists when there is at least one pair and the absolute
/// weights of the valid pairs do not all vanish.
pub open spec fn centroid_defined(pairs: Seq<(Vec<i64>, i64)>) -> bool {
    pairs.len() > 0 && weight_sum(pairs, pairs.len() as int) != 0
}

/// Component `j` of the clipped weighted mean of the valid pairs.
pub open spec fn centroid_at(pairs: Seq<(Vec<i64>, i64)>, j: int) -> int
    recommends
        centroid_defined(pairs),
{
    clip_val(
        div_trunc(
            weighted_sum_at(pairs, j, pairs.len() as int),
            weight_sum(pairs, pairs.len() as int),
        ),
        CLIP_VALUE as int,
    )
}

/// Every pair's embedding components and weight are within the engine's
/// magnitude limits.
pub open spec fn pairs_bounded(pairs: Seq<(Vec<i64>, i64)>) -> bool {
    forall|i: int|
        0 <= i < pairs.len() ==> coords_bounded(#[trigger] pairs[i].0@) && -WEIGHT_LIMIT
            <= pairs[i].1 <= WEIGHT_LIMIT
}

proof fn lemma_weight_sum_nonneg(pairs: Seq<(Vec<i64>, i64)>, n: int)
    requires
        n <= pairs.len(),
    ensures
        weight_sum(pairs, n) >= 0,
    decreases n,
{
    if n > 0 {
        lemma_weight_sum_nonneg(pairs, n - 1);
    }
}

/// Weighted mean of a sequence of (embedding, signed weight) pairs, using
/// the absolute weights, clipped to `CLIP_VALUE`.
///
/// Returns nothing when `pairs` is empty or the absolute weights of the
/// valid pairs sum to zero (no usable signal). A pair whose embedding
/// length differs from the first pair's is skipped, not an error.
pub fn weighted_centroid(pairs: &Vec<(Vec<i64>, i64)>) -> (r: Option<Vec<i64>>)
    requires
        pairs_bounded(pairs@),
    ensures
        r is Some <==> centroid_defined(pairs@),
        r matches Some(c) ==> {
            &&& c@.len() == pairs@[0].0@.len()
            &&& forall|j: int| 0 <= j < c@.len() ==> c@[j] == centroid_at(pairs@, j)
            &&& forall|j: int| 0 <= j < c@.len() ==> -CLIP_VALUE <= #[trigger] c@[j] <= CLIP_VALUE
        },
        opt_view(r) == centroid_opt(pairs@),
{
    if pairs.len() == 0 {
        return None;
    }
    let ghost ps = pairs@;
    let dim: usize = pairs[0].0.len();
    let mut acc: Vec<i128> = Vec::new();
    let mut d: usize = 0;
    while d < dim
        invariant
            acc@.len() == d,
            d <= dim,
            forall|j: int| 0 <= j < d ==> acc@[j] == 0,
        decreases dim - d,
    {
        acc.push(0);
        d = d + 1;
    }
    let mut wsum: i128 = 0;
    let mut i: usize = 0;
    while i < pairs.len()
        invariant
            pairs_bounded(ps),
            pairs@ == ps,
            0 < ps.len(),
            0 <= i <= ps.len(),
            dim == ps[0].0@.len(),
            acc@.len() == dim,
            wsum == weight_sum(ps, i as int),
            0 <= wsum <= (i as int) * (WEIGHT_LIMIT as int),
            forall|j: int| 0 <= j < dim ==> acc@[j] == weighted_sum_at(ps, j, i as int),
            forall|j: int|
                0 <= j < dim ==> abs_val(#[trigger] acc@[j] as int) <= (i as int) * ((
                COORD_LIMIT as int) * (WEIGHT_LIMIT as int)),
        decreases ps.len() - i,
    {
        if pairs[i].0.len() == dim {
            let w: i64 = pairs[i].1;
            let wa: i64 = if w < 0 {
                -w
            } else {
                w
            };
            proof {
                assert((i as int) * (WEIGHT_LIMIT as int) + (WEIGHT_LIMIT as int) == ((i + 1) as int)
                    * (WEIGHT_LIMIT as int)) by (nonlinear_arith);
                vstd::arithmetic::mul::lemma_mul_inequality(
                    i as int + 1,
                    0x1_0000_0000_0000_0000,
                    WEIGHT_LIMIT as int,
                );
            }
            wsum = wsum + wa as i128;
            let mut j: usize = 0;
            while j < dim
                invariant
                    pairs_bounded(ps),
                    pairs@ == ps,
                    0 <= i < ps.len(),
                    dim == ps[0].0@.len(),
                    pair_valid(ps, i as int),
                    wa == abs_val(ps[i as int].1 as int),
                    acc@.len() == dim,
                    0 <= j <= dim,
                    forall|jj: int| 0 <= jj < j ==> acc@[jj] == weighted_sum_at(ps, jj, i + 1),
                    forall|jj: int|
                        j <= jj < dim ==> acc@[jj] == weighted_sum_at(ps, jj, i as int),
                    forall|jj: int|
                        0 <= jj < j ==> abs_val(#[trigger] acc@[jj] as int) <= ((i + 1) as int) * ((
                        COORD_LIMIT as int) * (WEIGHT_LIMIT as int)),
                    forall|jj: int|
                        j <= jj < dim ==> abs_val(#[trigger] acc@[jj] as int) <= (i as int) * ((
                        COORD_LIMIT as int) * (WEIGHT_LIMIT as int)),
                decreases dim - j,
            {
                let e: i64 = pairs[i].0[j];
                proof {
                    assert(abs_val((e as int) * (wa as int)) <= (COORD_LIMIT as int) * (
                    WEIGHT_LIMIT as int)) by (nonlinear_arith)
                        requires
                            -COORD_LIMIT <= e <= COORD_LIMIT,
                            0 <= wa <= WEIGHT_LIMIT,
                    ;
                    assert((i as int) * ((COORD_LIMIT as int) * (WEIGHT_LIMIT as int)) + (
                    COORD_LIMIT as int) * (WEIGHT_LIMIT as int) == ((i + 1) as int) * ((
                    COORD_LIMIT as int) * (WEIGHT_LIMIT as int))) by (nonlinear_arith);
                    vstd::arithmetic::mul::lemma_mul_inequality(
                        i as int + 1,
                        0x1_0000_0000_0000_0000,
                        (COORD_LIMIT as int) * (WEIGHT_LIMIT as int),
                    );
                }
                acc[j] = acc[j] + (e as i128) * (wa as i128);
                j = j + 1;
            }
        } else {
            proof {
                lemma_weight_sum_nonneg(ps, i as int);
                assert((i as int) * (WEIGHT_LIMIT as int) <= ((i + 1) as int) * (WEIGHT_LIMIT as int))
                    by (nonlinear_arith)
                    requires
                        i >= 0,
                ;
                assert forall|j: int| 0 <= j < dim implies abs_val(#[trigger] acc@[j] as int) <= ((
                i + 1) as int) * ((COORD_LIMIT as int) * (WEIGHT_LIMIT as int)) by {
                    assert((i as int) * ((COORD_LIMIT as int) * (WEIGHT_LIMIT as int)) <= ((i
                        + 1) as int) * ((COORD_LIMIT as int) * (WEIGHT_LIMIT as int)))
                        by (nonlinear_arith)
                        requires
                            i >= 0,
                    ;
                }
            }
        }
        i = i + 1;
    }
    if wsum == 0 {
        return None;
    }
    let n: usize = pairs.len();
    assert(ps.len() == n as int);
    let mut out: Vec<i64> = Vec::new();
    let mut j: usize = 0;
    while j < dim
        invariant
            pairs@ == ps,
            0 < ps.len(),
            ps.len() <= usize::MAX as int,
            dim == ps[0].0@.len(),
            acc@.len() == dim,
            0 < wsum,
            wsum == weight_sum(ps, ps.len() as int),
            forall|jj: int| 0 <= jj < dim ==> acc@[jj] == weighted_sum_at(ps, jj, ps.len() as int),
            forall|jj: int|
                0 <= jj < dim ==> abs_val(#[trigger] acc@[jj] as int) <= (ps.len() as int) * ((
                COORD_LIMIT as int) * (WEIGHT_LIMIT as int)),
            0 <= j <= dim,
            out@.len() == j,
            forall|jj: int| 0 <= jj < j ==> out@[jj] == centroid_at(ps, jj),
            forall|jj: int| 0 <= jj < j ==> -CLIP_VALUE <= #[trigger] out@[jj] <= CLIP_VALUE,
        decreases dim - j,
    {
        let a: i128 = acc[j];
        proof {
            vstd::arithmetic::mul::lemma_mul_inequality(
                ps.len() as int,
                0x1_0000_0000_0000_0000,
                (COORD_LIMIT as int) * (WEIGHT_LIMIT as int),
            );
        }
        let q: i128 = if a >= 0 {
            ((a as u128) / (wsum as u128)) as i128
        } else {
            -(((-a) as u128 / (wsum as u128)) as i128)
        };
        assert(q == div_trunc(a as int, wsum as int));
        let c: i64 = if q > CLIP_VALUE as i128 {
            CLIP_VALUE
        } else if q < -CLIP_VALUE as i128 {
            -CLIP_VALUE
        } else {
            q as i64
        };
        out.push(c);
        j = j + 1;
    }
    assert(out@ =~= Seq::new(ps[0].0@.len() as nat, |jj: int| centroid_at(ps, jj) as i64));
    Some(out)
}

/// Every component clamped to `[-CLIP_VALUE, CLIP_VALUE]`.
pub open spec fn clip_seq(s: Seq<i64>) -> Seq<i64> {
    Seq::new(s.len(), |j: int| clip_val(s[j] as int, CLIP_VALUE as int) as i64)
}

/// Component-wise negation.
pub open spec fn negate_seq(s: Seq<i64>) -> Seq<i64> {
    Seq::new(s.len(), |j: int| (-(s[j] as int)) as i64)
}

/// View of an optional vector.
pub open spec fn opt_view(o: Option<Vec<i64>>) -> Option<Seq<i64>> {
    match o {
        Some(v) => Some(v@),
        None => None,
    }
}

/// The four-way taste-query policy over the optional positive and negative
/// centroids: no signal gives nothing; one signal gives its clipped vector,
/// negated for the disliked side; both signals give the clipped difference,
/// unless their dimensions disagree, in which case the negative signal is
/// discarded entirely.
pub open spec fn taste_query_spec(pos: Option<Seq<i64>>, neg: Option<Seq<i64>>) -> Option<
    Seq<i64>,
> {
    match (pos, neg) {
        (None, None) => None,
        (Some(p), None) => Some(clip_seq(p)),
        (None, Some(n)) => Some(clip_seq(negate_seq(n))),
        (Some(p), Some(n)) => if p.len() != n.len() {
            Some(clip_seq(p))
        } else {
            Some(Seq::new(p.len(), |j: int| clip_val(p[j] - n[j], CLIP_VALUE as int) as i64))
        },
    }
}

/// Combines the optional positive and negative taste centroids into a
/// single query vector, following [`taste_query_spec`].
pub fn build_taste_query(positive: Option<Vec<i64>>, negative: Option<Vec<i64>>) -> (r: Option<
    Vec<i64>,
>)
    requires
        positive matches Some(p) ==> coords_bounded(p@),
        negative matches Some(n) ==> coords_bounded(n@),
    ensures
        opt_view(r) == taste_query_spec(opt_view(positive), opt_view(negative)),
        r is Some <==> (positive is Some || negative is Some),
        r matches Some(v) ==> forall|j: int|
            0 <= j < v@.len() ==> -CLIP_VALUE <= #[trigger] v@[j] <= CLIP_VALUE,
{
    match (positive, negative) {
        (None, None) => None,
        (Some(mut pos), None) => {
            let ghost p0 = pos@;
            clip(&mut pos, CLIP_VALUE);
            assert(pos@ =~= clip_seq(p0));
            Some(pos)
        },
        (None, Some(mut neg)) => {
            let ghost n0 = neg@;
            let mut i: usize = 0;
            while i < neg.len()
                invariant
                    coords_bounded(n0),
                    neg@.len() == n0.len(),
                    0 <= i <= n0.len(),
                    forall|j: int| 0 <= j < i ==> neg@[j] as int == -(n0[j] as int),
                    forall|j: int| i <= j < n0.len() ==> neg@[j] == n0[j],
                decreases n0.len() - i,
            {
                assert(neg@[i as int] == n0[i as int]);
                neg[i] = -neg[i];
                i = i + 1;
            }
            clip(&mut neg, CLIP_VALUE);
            assert(neg@ =~= clip_seq(negate_seq(n0)));
            Some(neg)
        },
        (Some(mut pos), Some(neg)) => {
            let ghost p0 = pos@;
            let ghost n0 = neg@;
            if pos.len() != neg.len() {
                // Defensive fallback: trust the positive signal alone.
                clip(&mut pos, CLIP_VALUE);
                assert(pos@ =~= clip_seq(p0));
                return Some(pos);
            }
            let mut i: usize = 0;
            while i < pos.len()
                invariant
                    coords_bounded(p0),
                    coords_bounded(n0),
                    neg@ == n0,
                    pos@.len() == p0.len(),
                    n0.len() == p0.len(),
                    0 <= i <= p0.len(),
                    forall|j: int| 0 <= j < i ==> pos@[j] as int == p0[j] - n0[j],
                    forall|j: int| i <= j < p0.len() ==> pos@[j] == p0[j],
                decreases p0.len() - i,
            {
                assert(pos@[i as int] == p0[i as int] && neg@[i as int] == n0[i as int]);
                pos[i] = pos[i] - neg[i];
                i = i + 1;
            }
            clip(&mut pos, CLIP_VALUE);
            assert(pos@ =~= Seq::new(
                p0.len(),
                |j: int| clip_val(p0[j] - n0[j], CLIP_VALUE as int) as i64,
            ));
            Some(pos)
        },
    }
}

/// The weighted centroid as an optional sequence: the clipped weighted
/// mean when it exists, nothing when there is no usable signal.
pub open spec fn centroid_opt(pairs: Seq<(Vec<i64>, i64)>) -> Option<Seq<i64>> {
    if centroid_defined(pairs) {
        Some(Seq::new(pairs[0].0@.len() as nat, |j: int| centroid_at(pairs, j) as i64))
    } else {
        None
    }
}

/// An absent pair of taste signals yields no query, and a positive signal
/// alone yields exactly its clipped vector.
pub proof fn lemma_taste_query_policy(v: Seq<i64>)
    ensures
        taste_query_spec(None, None) is None,
        taste_query_spec(Some(v), None) == Some(clip_seq(v)),
{
}

/// `scaled` holds the same embeddings as `pairs` with every weight
/// multiplied by `c`.
pub open spec fn uniformly_scaled(
    pairs: Seq<(Vec<i64>, i64)>,
    scaled: Seq<(Vec<i64>, i64)>,
    c: int,
) -> bool {
    &&& scaled.len() == pairs.len()
    &&& forall|i: int|
        0 <= i < pairs.len() ==> (#[trigger] scaled[i].0)@ == pairs[i].0@ && scaled[i].1 as int == c
            * (pairs[i].1 as int)
}

proof fn lemma_sums_scale(
    pairs: Seq<(Vec<i64>, i64)>,
    scaled: Seq<(Vec<i64>, i64)>,
    c: int,
    j: int,
    n: int,
)
    requires
        c > 0,
        uniformly_scaled(pairs, scaled, c),
        0 <= n <= pairs.len(),
    ensures
        weight_sum(scaled, n) == c * weight_sum(pairs, n),
        weighted_sum_at(scaled, j, n) == c * weighted_sum_at(pairs, j, n),
    decreases n,
{
    if n <= 0 {
    } else {
        lemma_sums_scale(pairs, scaled, c, j, n - 1);
        let w = pairs[n - 1].1 as int;
        if pairs.len() > 0 {
            assert(pair_valid(scaled, n - 1) == pair_valid(pairs, n - 1));
        }
        assert(abs_val(c * w) == c * abs_val(w)) by (nonlinear_arith)
            requires
                c > 0,
        ;
        assert(pairs[n - 1].0@[j] * (c * abs_val(w)) == c * (pairs[n - 1].0@[j] * abs_val(w)))
            by (nonlinear_arith);
        assert(c * (weight_sum(pairs, n - 1) + if pair_valid(pairs, n - 1) {
            abs_val(w)
        } else {
            0
        }) == c * weight_sum(pairs, n - 1) + c * (if pair_valid(pairs, n - 1) {
            abs_val(w)
        } else {
            0
        })) by (nonlinear_arith);
        assert(c * (weighted_sum_at(pairs, j, n - 1) + if pair_valid(pairs, n - 1) {
            pairs[n - 1].0@[j] * abs_val(w)
        } else {
            0
        }) == c * weighted_sum_at(pairs, j, n - 1) + c * (if pair_valid(pairs, n - 1) {
            pairs[n - 1].0@[j] * abs_val(w)
        } else {
            0
        })) by (nonlinear_arith);
    }
}

proof fn lemma_div_trunc_scale(a: int, b: int, c: int)
    requires
        b > 0,
        c > 0,
    ensures
        div_trunc(c * a, c * b) == div_trunc(a, b),
{
    vstd::arithmetic::mul::lemma_mul_strictly_positive(c, b);
    if a >= 0 {
        vstd::arithmetic::mul::lemma_mul_nonnegative(c, a);
        vstd::arithmetic::div_mod::lemma_div_denominator(c * a, c, b);
        vstd::arithmetic::div_mod::lemma_div_multiples_vanish(a, c);
    } else {
        assert(c * a < 0) by (nonlinear_arith)
            requires
                c > 0,
                a < 0,
        ;
        assert(-(c * a) == c * (-a)) by (nonlinear_arith);
        vstd::arithmetic::mul::lemma_mul_nonnegative(c, -a);
        vstd::arithmetic::div_mod::lemma_div_denominator(c * (-a), c, b);
        vstd::arithmetic::div_mod::lemma_div_multiples_vanish(-a, c);
    }
}

/// Scaling every weight by one positive constant leaves the weighted
/// centroid unchanged, existence included: the centroid is a weighted mean.
pub proof fn lemma_centroid_scale_invariance(
    pairs: Seq<(Vec<i64>, i64)>,
    scaled: Seq<(Vec<i64>, i64)>,
    c: int,
)
    requires
        c > 0,
        uniformly_scaled(pairs, scaled, c),
    ensures
        centroid_defined(scaled) <==> centroid_defined(pairs),
        centroid_defined(pairs) ==> forall|j: int|
            #[trigger] centroid_at(scaled, j) == centroid_at(pairs, j),
{
    if pairs.len() > 0 {
        let n = pairs.len() as int;
        lemma_sums_scale(pairs, scaled, c, 0, n);
        let ws = weight_sum(pairs, n);
        assert(c * ws == 0 <==> ws == 0) by (nonlinear_arith)
            requires
                c > 0,
        ;
        if centroid_defined(pairs) {
            lemma_weight_sum_nonneg(pairs, n);
            assert forall|j: int| #[trigger]
                centroid_at(scaled, j) == centroid_at(pairs, j) by {
                lemma_sums_scale(pairs, scaled, c, j, n);
                lemma_div_trunc_scale(weighted_sum_at(pairs, j, n), ws, c);
            }
        }
    }
}

proof fn lemma_weight_sum_zero(pairs: Seq<(Vec<i64>, i64)>, n: int)
    requires
        0 <= n <= pairs.len(),
        forall|i: int| 0 <= i < pairs.len() ==> pairs[i].1 == 0,
    ensures
        weight_sum(pairs, n) == 0,
    decreases n,
{
    if n > 0 {
        lemma_weight_sum_zero(pairs, n - 1);
    }
}

/// No pairs at all, and pairs whose weights are all zero, both carry no
/// usable signal: the weighted centroid does not exist.
pub proof fn lemma_centroid_no_signal(pairs: Seq<(Vec<i64>, i64)>)
    requires
        pairs.len() == 0 || (forall|i: int| 0 <= i < pairs.len() ==> pairs[i].1 == 0),
    ensures
        !centroid_defined(pairs),
{
    if pairs.len() > 0 {
        lemma_weight_sum_zero(pairs, pairs.len() as int);
    }
}

} // verus!
