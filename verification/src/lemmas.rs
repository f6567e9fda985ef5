//! Facts about the sums of the model: bounds, the expansion of a sum of
//! squares, and what the spread of a sequence says about its elements.

use crate::model::{
    dot, is_constant, prefix_dot, prefix_offset_squares, prefix_residual_squares, prefix_sum,
    spread, sum, Line,
};
use vstd::prelude::*;

verus! {

/// A sum of `k` terms of magnitude at most `m` has magnitude at most `k * m`.
pub proof fn lemma_prefix_sum_bound(s: Seq<int>, k: int, m: int)
    requires
        0 <= k <= s.len(),
        forall|i: int| 0 <= i < k ==> -m <= #[trigger] s[i] <= m,
    ensures
        -(k * m) <= prefix_sum(s, k) <= k * m,
    decreases k,
{
    if k > 0 {
        lemma_prefix_sum_bound(s, k - 1, m);
        assert((k - 1) * m + m == k * m) by (nonlinear_arith);
    } else {
        assert(k * m == 0) by (nonlinear_arith)
            requires
                k == 0,
        ;
    }
}

/// A product of two bounded factors is bounded by the product of the bounds.
pub proof fn lemma_product_bound(a: int, b: int, ma: int, mb: int)
    requires
        -ma <= a <= ma,
        -mb <= b <= mb,
    ensures
        -(ma * mb) <= a * b <= ma * mb,
{
    assert(-(ma * mb) <= a * b <= ma * mb) by (nonlinear_arith)
        requires
            -ma <= a <= ma,
            -mb <= b <= mb,
    ;
}

/// A sum of `k` products of bounded factors is bounded.
pub proof fn lemma_prefix_dot_bound(a: Seq<int>, b: Seq<int>, k: int, ma: int, mb: int)
    requires
        0 <= k <= a.len(),
        k <= b.len(),
        forall|i: int| 0 <= i < k ==> -ma <= #[trigger] a[i] <= ma,
        forall|i: int| 0 <= i < k ==> -mb <= #[trigger] b[i] <= mb,
    ensures
        -(k * (ma * mb)) <= prefix_dot(a, b, k) <= k * (ma * mb),
    decreases k,
{
    if k > 0 {
        lemma_prefix_dot_bound(a, b, k - 1, ma, mb);
        lemma_product_bound(a[k - 1], b[k - 1], ma, mb);
        assert((k - 1) * (ma * mb) + ma * mb == k * (ma * mb)) by (nonlinear_arith);
    } else {
        assert(k * (ma * mb) == 0) by (nonlinear_arith)
            requires
                k == 0,
        ;
    }
}

/// A sum of squares is not negative.
pub proof fn lemma_prefix_dot_self_nonnegative(a: Seq<int>, k: int)
    requires
        0 <= k <= a.len(),
    ensures
        0 <= prefix_dot(a, a, k),
    decreases k,
{
    if k > 0 {
        lemma_prefix_dot_self_nonnegative(a, k - 1);
        let v = a[k - 1];
        assert(0 <= v * v) by (nonlinear_arith);
    }
}

/// A sum of squared residuals is not negative.
pub proof fn lemma_prefix_residual_squares_nonnegative(
    actual: Seq<int>,
    predicted: Seq<int>,
    den: int,
    k: int,
)
    requires
        0 <= k <= actual.len(),
        k <= predicted.len(),
    ensures
        0 <= prefix_residual_squares(actual, predicted, den, k),
    decreases k,
{
    if k > 0 {
        lemma_prefix_residual_squares_nonnegative(actual, predicted, den, k - 1);
        let r = actual[k - 1] * den - predicted[k - 1];
        assert(0 <= r * r) by (nonlinear_arith);
    }
}

/// The sum of the squares `(scale * s[i] - shift)^2` written out in the sum
/// and the sum of squares of `s`.
pub proof fn lemma_offset_squares_expanded(s: Seq<int>, scale: int, shift: int, k: int)
    requires
        0 <= k <= s.len(),
    ensures
        prefix_offset_squares(s, scale, shift, k) == scale * scale * prefix_dot(s, s, k) - 2
            * scale * shift * prefix_sum(s, k) + k * shift * shift,
    decreases k,
{
    if k > 0 {
        lemma_offset_squares_expanded(s, scale, shift, k - 1);
        let v = s[k - 1];
        let before = prefix_offset_squares(s, scale, shift, k - 1);
        let q0 = prefix_dot(s, s, k - 1);
        let s0 = prefix_sum(s, k - 1);
        let after = prefix_offset_squares(s, scale, shift, k);
        let q1 = prefix_dot(s, s, k);
        let s1 = prefix_sum(s, k);
        assert(after == scale * scale * q1 - 2 * scale * shift * s1 + k * shift * shift)
            by (nonlinear_arith)
            requires
                after == before + (scale * v - shift) * (scale * v - shift),
                q1 == q0 + v * v,
                s1 == s0 + v,
                before == scale * scale * q0 - 2 * scale * shift * s0 + (k - 1) * shift * shift,
        ;
    } else {
        assert(scale * scale * 0 - 2 * scale * shift * 0 + 0 * shift * shift == 0)
            by (nonlinear_arith);
    }
}

/// A sum of squares `(scale * s[i] - shift)^2` is not negative.
pub proof fn lemma_offset_squares_nonnegative(s: Seq<int>, scale: int, shift: int, k: int)
    requires
        0 <= k <= s.len(),
    ensures
        0 <= prefix_offset_squares(s, scale, shift, k),
    decreases k,
{
    if k > 0 {
        lemma_offset_squares_nonnegative(s, scale, shift, k - 1);
        let t = scale * s[k - 1] - shift;
        assert(0 <= t * t) by (nonlinear_arith);
    }
}

/// Where a sum of squares `(scale * s[i] - shift)^2` is zero, each term is.
pub proof fn lemma_offset_squares_zero(s: Seq<int>, scale: int, shift: int, k: int)
    requires
        0 <= k <= s.len(),
        prefix_offset_squares(s, scale, shift, k) == 0,
    ensures
        forall|i: int| 0 <= i < k ==> scale * #[trigger] s[i] == shift,
    decreases k,
{
    if k > 0 {
        lemma_offset_squares_nonnegative(s, scale, shift, k - 1);
        let t = scale * s[k - 1] - shift;
        assert(0 <= t * t) by (nonlinear_arith);
        assert(t == 0) by (nonlinear_arith)
            requires
                t * t == 0,
        ;
        lemma_offset_squares_zero(s, scale, shift, k - 1);
    }
}

/// The spread of `s`, multiplied by its length `n`, is the sum of the
/// squares `(n * s[i] - sum(s))^2`: `n^2` times the sum of squared
/// deviations from the mean.
pub proof fn lemma_spread_is_sum_of_squares(s: Seq<int>)
    ensures
        s.len() * spread(s) == prefix_offset_squares(s, s.len() as int, sum(s), s.len() as int),
{
    let n = s.len() as int;
    let q = dot(s, s);
    let t = sum(s);
    lemma_offset_squares_expanded(s, n, t, n);
    assert(n * (n * q - t * t) == n * n * q - 2 * n * t * t + n * t * t) by (nonlinear_arith);
}

/// The spread of a sequence is not negative.
pub proof fn lemma_spread_nonnegative(s: Seq<int>)
    ensures
        0 <= spread(s),
{
    let n = s.len() as int;
    lemma_spread_is_sum_of_squares(s);
    lemma_offset_squares_nonnegative(s, n, sum(s), n);
    let v = spread(s);
    if n > 0 {
        assert(0 <= v) by (nonlinear_arith)
            requires
                n > 0,
                0 <= n * v,
        ;
    } else {
        assert(0 * dot(s, s) == 0) by (nonlinear_arith);
        assert(sum(s) * sum(s) == 0) by (nonlinear_arith)
            requires
                sum(s) == 0,
        ;
    }
}

/// The sums of a sequence whose first `k` elements all equal `c`.
pub proof fn lemma_constant_sums(s: Seq<int>, c: int, k: int)
    requires
        0 <= k <= s.len(),
        forall|i: int| 0 <= i < k ==> #[trigger] s[i] == c,
    ensures
        prefix_sum(s, k) == k * c,
        prefix_dot(s, s, k) == k * (c * c),
    decreases k,
{
    if k > 0 {
        lemma_constant_sums(s, c, k - 1);
        assert((k - 1) * c + c == k * c) by (nonlinear_arith);
        assert((k - 1) * (c * c) + c * c == k * (c * c)) by (nonlinear_arith);
    } else {
        assert(k * c == 0 && k * (c * c) == 0) by (nonlinear_arith)
            requires
                k == 0,
        ;
    }
}

/// A sequence has no spread exactly when all its elements are equal.
pub proof fn lemma_spread_zero_iff_constant(s: Seq<int>)
    ensures
        spread(s) == 0 <==> is_constant(s),
{
    let n = s.len() as int;
    if is_constant(s) {
        if n > 0 {
            let c = s[0];
            lemma_constant_sums(s, c, n);
            assert(n * (n * (c * c)) - (n * c) * (n * c) == 0) by (nonlinear_arith);
        } else {
            assert(0 * dot(s, s) == 0) by (nonlinear_arith);
            assert(sum(s) * sum(s) == 0) by (nonlinear_arith)
                requires
                    sum(s) == 0,
            ;
        }
    }
    if spread(s) == 0 {
        lemma_spread_is_sum_of_squares(s);
        assert(n * spread(s) == 0) by (nonlinear_arith)
            requires
                spread(s) == 0,
        ;
        lemma_offset_squares_zero(s, n, sum(s), n);
        assert forall|i: int, j: int| 0 <= i < s.len() && 0 <= j < s.len() implies s[i]
            == s[j] by {
            let a = s[i];
            let b = s[j];
            assert(a == b) by (nonlinear_arith)
                requires
                    n > 0,
                    n * a == n * b,
            ;
        }
    }
}

/// Sums of a sequence `y` that lies on the line `y[i] = a * x[i] + b`.
pub proof fn lemma_sums_on_a_line(x: Seq<int>, y: Seq<int>, a: int, b: int, k: int)
    requires
        0 <= k <= x.len(),
        k <= y.len(),
        forall|i: int| 0 <= i < k ==> #[trigger] y[i] == a * x[i] + b,
    ensures
        prefix_sum(y, k) == a * prefix_sum(x, k) + b * k,
        prefix_dot(x, y, k) == a * prefix_dot(x, x, k) + b * prefix_sum(x, k),
    decreases k,
{
    if k > 0 {
        lemma_sums_on_a_line(x, y, a, b, k - 1);
        let u = x[k - 1];
        let v = y[k - 1];
        let sx0 = prefix_sum(x, k - 1);
        let sy0 = prefix_sum(y, k - 1);
        let q0 = prefix_dot(x, x, k - 1);
        let d0 = prefix_dot(x, y, k - 1);
        assert(sy0 + v == a * (sx0 + u) + b * k) by (nonlinear_arith)
            requires
                sy0 == a * sx0 + b * (k - 1),
                v == a * u + b,
        ;
        assert(d0 + u * v == a * (q0 + u * u) + b * (sx0 + u)) by (nonlinear_arith)
            requires
                d0 == a * q0 + b * sx0,
                v == a * u + b,
        ;
    } else {
        assert(a * 0 + b * 0 == 0) by (nonlinear_arith);
    }
}

/// How the residuals of two lines against the same points relate.
///
/// With `d` and `q` the denominators of `first` and `second`, each residual
/// of `second`, scaled by `d`, is the residual of `first`, scaled by `q`,
/// plus `u * x[i] + w`, where `u` and `w` are the differences of the
/// lines' slopes and intercepts over the denominator `d * q`.  Squared and
/// summed, this gives the sum of squares of `second` as that of `first`,
/// plus the sum of the squares `(u * x[i] + w)^2`, plus a term in the sums
/// of the residuals of `first` and of their products with `x[i]`.
pub proof fn lemma_residuals_of_two_lines(
    x: Seq<int>,
    y: Seq<int>,
    first: Line,
    second: Line,
    k: int,
)
    requires
        0 <= k <= x.len(),
        k <= y.len(),
    ensures
        ({
            let d = first.denominator;
            let q = second.denominator;
            let u = q * first.slope_numerator - d * second.slope_numerator;
            let w = q * first.intercept_numerator - d * second.intercept_numerator;
            let moment = d * prefix_dot(x, y, k) - first.slope_numerator * prefix_dot(x, x, k)
                - first.intercept_numerator * prefix_sum(x, k);
            let total = d * prefix_sum(y, k) - first.slope_numerator * prefix_sum(x, k) - k
                * first.intercept_numerator;
            d * d * prefix_residual_squares(y, second.numerators_at(x), q, k) == q * q
                * prefix_residual_squares(y, first.numerators_at(x), d, k)
                + prefix_offset_squares(x, u, -w, k) + 2 * q * (u * moment + w * total)
        }),
    decreases k,
{
    let d = first.denominator;
    let q = second.denominator;
    let ns = first.slope_numerator;
    let ni = first.intercept_numerator;
    let a = second.slope_numerator;
    let b = second.intercept_numerator;
    let u = q * ns - d * a;
    let w = q * ni - d * b;
    if k > 0 {
        lemma_residuals_of_two_lines(x, y, first, second, k - 1);
        let xv = x[k - 1];
        let yv = y[k - 1];
        let r = yv * d - (ns * xv + ni);
        let s = yv * q - (a * xv + b);
        let e = u * xv - (-w);
        let ro0 = prefix_residual_squares(y, second.numerators_at(x), q, k - 1);
        let ro1 = prefix_residual_squares(y, second.numerators_at(x), q, k);
        let rb0 = prefix_residual_squares(y, first.numerators_at(x), d, k - 1);
        let rb1 = prefix_residual_squares(y, first.numerators_at(x), d, k);
        let po0 = prefix_offset_squares(x, u, -w, k - 1);
        let po1 = prefix_offset_squares(x, u, -w, k);
        let sxy0 = prefix_dot(x, y, k - 1);
        let sxx0 = prefix_dot(x, x, k - 1);
        let sx0 = prefix_sum(x, k - 1);
        let sy0 = prefix_sum(y, k - 1);
        let moment0 = d * sxy0 - ns * sxx0 - ni * sx0;
        let total0 = d * sy0 - ns * sx0 - (k - 1) * ni;
        let moment1 = d * (sxy0 + xv * yv) - ns * (sxx0 + xv * xv) - ni * (sx0 + xv);
        let total1 = d * (sy0 + yv) - ns * (sx0 + xv) - k * ni;
        let rx = d * (xv * yv) - ns * (xv * xv) - ni * xv;
        assert(d * s == q * r + e) by (nonlinear_arith)
            requires
                r == yv * d - (ns * xv + ni),
                s == yv * q - (a * xv + b),
                e == u * xv - (-w),
                u == q * ns - d * a,
                w == q * ni - d * b,
        ;
        assert(d * d * (s * s) == (d * s) * (d * s)) by (nonlinear_arith);
        assert((q * r + e) * (q * r + e) == q * q * (r * r) + e * e + 2 * q * (r * e))
            by (nonlinear_arith);
        assert(r * xv == rx) by (nonlinear_arith)
            requires
                r == yv * d - (ns * xv + ni),
                rx == d * (xv * yv) - ns * (xv * xv) - ni * xv,
        ;
        assert(r * e == u * rx + w * r) by (nonlinear_arith)
            requires
                e == u * xv - (-w),
                r * xv == rx,
        ;
        assert(moment1 == moment0 + rx) by (nonlinear_arith)
            requires
                moment0 == d * sxy0 - ns * sxx0 - ni * sx0,
                moment1 == d * (sxy0 + xv * yv) - ns * (sxx0 + xv * xv) - ni * (sx0 + xv),
                rx == d * (xv * yv) - ns * (xv * xv) - ni * xv,
        ;
        assert(total1 == total0 + r) by (nonlinear_arith)
            requires
                total0 == d * sy0 - ns * sx0 - (k - 1) * ni,
                total1 == d * (sy0 + yv) - ns * (sx0 + xv) - k * ni,
                r == yv * d - (ns * xv + ni),
        ;
        let cross0 = u * moment0 + w * total0;
        let cross1 = u * moment1 + w * total1;
        let step = u * rx + w * r;
        assert(d * d * ro1 == d * d * ro0 + d * d * (s * s)) by (nonlinear_arith)
            requires
                ro1 == ro0 + s * s,
        ;
        assert(q * q * rb1 == q * q * rb0 + q * q * (r * r)) by (nonlinear_arith)
            requires
                rb1 == rb0 + r * r,
        ;
        assert(cross1 == cross0 + step) by (nonlinear_arith)
            requires
                cross0 == u * moment0 + w * total0,
                cross1 == u * moment1 + w * total1,
                step == u * rx + w * r,
                moment1 == moment0 + rx,
                total1 == total0 + r,
        ;
        assert(2 * q * cross1 == 2 * q * cross0 + 2 * q * step) by (nonlinear_arith)
            requires
                cross1 == cross0 + step,
        ;
        assert(d * d * (s * s) == q * q * (r * r) + e * e + 2 * q * step) by (nonlinear_arith)
            requires
                d * d * (s * s) == (d * s) * (d * s),
                d * s == q * r + e,
                (q * r + e) * (q * r + e) == q * q * (r * r) + e * e + 2 * q * (r * e),
                r * e == step,
        ;
    } else {
        assert(d * d * 0 == q * q * 0 + 0 + 2 * q * (u * (d * 0 - ns * 0 - ni * 0) + w * (d * 0
            - ns * 0 - 0 * ni))) by (nonlinear_arith);
    }
}

/// Where every prediction equals its sample, the residual sum of squares
/// is zero.
pub proof fn lemma_exact_predictions_leave_no_residual(
    actual: Seq<int>,
    predicted: Seq<int>,
    den: int,
    k: int,
)
    requires
        0 <= k <= actual.len(),
        k <= predicted.len(),
        forall|i: int| 0 <= i < k ==> #[trigger] predicted[i] == actual[i] * den,
    ensures
        prefix_residual_squares(actual, predicted, den, k) == 0,
    decreases k,
{
    if k > 0 {
        lemma_exact_predictions_leave_no_residual(actual, predicted, den, k - 1);
        assert(predicted[k - 1] == actual[k - 1] * den);
    }
}

/// Where every prediction misses its sample by the same amount `miss`
/// (scaled by the denominator), the residual sum of squares is
/// `k * miss^2`.
pub proof fn lemma_uniform_miss_residual(
    actual: Seq<int>,
    predicted: Seq<int>,
    den: int,
    miss: int,
    k: int,
)
    requires
        0 <= k <= actual.len(),
        k <= predicted.len(),
        forall|i: int| 0 <= i < k ==> #[trigger] predicted[i] == actual[i] * den + miss,
    ensures
        prefix_residual_squares(actual, predicted, den, k) == k * (miss * miss),
    decreases k,
{
    if k > 0 {
        lemma_uniform_miss_residual(actual, predicted, den, miss, k - 1);
        let r = actual[k - 1] * den - predicted[k - 1];
        assert(r * r == miss * miss) by (nonlinear_arith)
            requires
                r == -miss,
        ;
        assert((k - 1) * (miss * miss) + miss * miss == k * (miss * miss)) by (nonlinear_arith);
    } else {
        assert(k * (miss * miss) == 0) by (nonlinear_arith)
            requires
                k == 0,
        ;
    }
}

/// The residuals against the horizontal line through the mean of `y` are
/// the deviations of `y` from its mean.
pub proof fn lemma_mean_line_residual(x: Seq<int>, y: Seq<int>, k: int)
    requires
        x.len() == y.len(),
        0 <= k <= y.len(),
    ensures
        ({
            let n = y.len() as int;
            let mean = Line { slope_numerator: 0, intercept_numerator: sum(y), denominator: n };
            prefix_residual_squares(y, mean.numerators_at(x), n, k) == prefix_offset_squares(
                y,
                n,
                sum(y),
                k,
            )
        }),
    decreases k,
{
    if k > 0 {
        lemma_mean_line_residual(x, y, k - 1);
        let n = y.len() as int;
        let mean = Line { slope_numerator: 0, intercept_numerator: sum(y), denominator: n };
        let v = y[k - 1];
        assert(0 * x[k - 1] == 0) by (nonlinear_arith);
        assert(v * n == n * v) by (nonlinear_arith);
    }
}

} // verus!
