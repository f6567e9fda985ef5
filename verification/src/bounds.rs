//! How large the quantities of the model can grow for inputs within limits.

use crate::lemmas::{
    lemma_prefix_dot_bound, lemma_prefix_dot_self_nonnegative, lemma_prefix_sum_bound,
    lemma_product_bound, lemma_spread_nonnegative,
};
use crate::model::{dot, least_squares_line, spread, sum};
use crate::types::{samples, series_within_limits, times_within_limits, MAX_ABS, MAX_TIME};
use vstd::prelude::*;

verus! {

/// The sums over time coordinates within limits.
pub proof fn lemma_time_sums_bounded(x: Seq<i32>)
    requires
        times_within_limits(x),
    ensures
        -65_536 <= sum(samples(x)) <= 65_536,
        0 <= dot(samples(x), samples(x)) <= 16_777_216,
        0 <= spread(samples(x)) <= 4_294_967_296,
{
    let xs = samples(x);
    let n = xs.len() as int;
    lemma_prefix_sum_bound(xs, n, MAX_TIME as int);
    lemma_prefix_dot_bound(xs, xs, n, MAX_TIME as int, MAX_TIME as int);
    lemma_prefix_dot_self_nonnegative(xs, n);
    lemma_spread_nonnegative(xs);
    let s = sum(xs);
    let q = dot(xs, xs);
    assert(0 <= s * s) by (nonlinear_arith);
    lemma_product_bound(n, q, 256, 16_777_216);
}

/// The sums over a series within limits.
pub proof fn lemma_series_sums_bounded(y: Seq<i32>)
    requires
        series_within_limits(y),
    ensures
        -256_000_000 <= sum(samples(y)) <= 256_000_000,
        0 <= dot(samples(y), samples(y)) <= 256_000_000_000_000,
        0 <= spread(samples(y)) <= 65_536_000_000_000_000,
{
    let ys = samples(y);
    let n = ys.len() as int;
    lemma_prefix_sum_bound(ys, n, MAX_ABS as int);
    lemma_prefix_dot_bound(ys, ys, n, MAX_ABS as int, MAX_ABS as int);
    lemma_prefix_dot_self_nonnegative(ys, n);
    lemma_spread_nonnegative(ys);
    let s = sum(ys);
    let q = dot(ys, ys);
    assert(0 <= s * s) by (nonlinear_arith);
    lemma_product_bound(n, q, 256, 256_000_000_000_000);
}

/// The numerators and the denominator of the least-squares line through
/// points within limits.
pub proof fn lemma_line_bounded(x: Seq<i32>, y: Seq<i32>)
    requires
        x.len() == y.len(),
        times_within_limits(x),
        series_within_limits(y),
    ensures
        ({
            let line = least_squares_line(samples(x), samples(y));
            &&& 0 <= line.denominator <= 4_294_967_296
            &&& -33_554_432_000_000 <= line.slope_numerator <= 33_554_432_000_000
            &&& -8_589_934_592_000_000 <= line.intercept_numerator <= 8_589_934_592_000_000
        }),
{
    let xs = samples(x);
    let ys = samples(y);
    let n = xs.len() as int;
    lemma_time_sums_bounded(x);
    lemma_series_sums_bounded(y);
    lemma_prefix_dot_bound(xs, ys, n, MAX_TIME as int, MAX_ABS as int);
    let sx = sum(xs);
    let sy = sum(ys);
    let sxx = dot(xs, xs);
    let sxy = dot(xs, ys);
    lemma_product_bound(n, sxy, 256, 65_536_000_000);
    lemma_product_bound(sx, sy, 65_536, 256_000_000);
    lemma_product_bound(sy, sxx, 256_000_000, 16_777_216);
    lemma_product_bound(sxy, sx, 65_536_000_000, 65_536);
}

} // verus!
