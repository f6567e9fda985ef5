//! What holds of the model for every input: the theorems that relate the
//! estimator, the predictor and the evaluator to one another.

use crate::lemmas::{
    lemma_exact_predictions_leave_no_residual, lemma_mean_line_residual,
    lemma_offset_squares_nonnegative, lemma_prefix_residual_squares_nonnegative,
    lemma_residuals_of_two_lines, lemma_spread_is_sum_of_squares, lemma_spread_nonnegative,
    lemma_spread_zero_iff_constant, lemma_sums_on_a_line, lemma_uniform_miss_residual,
};
use crate::model::{
    coefficient_of_determination, dot, is_constant, least_squares_denominator,
    least_squares_line, line_residual_squares, mean_squared_error, prefix_offset_squares,
    regression_of, residual_squares, spread, sum, time_index, Fraction, Fractions, Line,
};
use vstd::prelude::*;

verus! {

/// For two or more samples the least-squares denominator over the time
/// index `0, 1, ..., n - 1` is positive, so a fit against the time index
/// never meets a zero denominator.
pub proof fn time_index_denominator_is_positive(n: nat)
    requires
        n >= 2,
    ensures
        least_squares_denominator(time_index(n)) > 0,
{
    let times = time_index(n);
    assert(times[0] != times[1]);
    lemma_spread_zero_iff_constant(times);
    lemma_spread_nonnegative(times);
}

/// The residuals of the least-squares line balance: their sum is zero, and
/// so is the sum of their products with `x[i]`.  Written in the sums of
/// `x` and `y`, with each residual scaled by the denominator.
///
/// The first equation says that the intercept is the mean of
/// `y[i] - slope * x[i]`, that is `(sum(y) - slope * sum(x)) / n`.
pub proof fn least_squares_residuals_balance(x: Seq<int>, y: Seq<int>)
    ensures
        ({
            let line = least_squares_line(x, y);
            &&& line.denominator * sum(y) - line.slope_numerator * sum(x) - x.len()
                * line.intercept_numerator == 0
            &&& line.denominator * dot(x, y) - line.slope_numerator * dot(x, x)
                - line.intercept_numerator * sum(x) == 0
        }),
{
    let n = x.len() as int;
    let sx = sum(x);
    let sy = sum(y);
    let sxx = dot(x, x);
    let sxy = dot(x, y);
    assert((n * sxx - sx * sx) * sy - (n * sxy - sx * sy) * sx - n * (sy * sxx - sxy * sx) == 0)
        by (nonlinear_arith);
    assert((n * sxx - sx * sx) * sxy - (n * sxy - sx * sy) * sxx - (sy * sxx - sxy * sx) * sx
        == 0) by (nonlinear_arith);
}

/// No line has a smaller residual sum of squares against the points
/// `(x[i], y[i])` than the least-squares line.  Each side holds the sum of
/// one line, scaled by the square of its denominator, times the square of
/// the other line's denominator.
pub proof fn least_squares_line_is_optimal(x: Seq<int>, y: Seq<int>, other: Line)
    requires
        x.len() == y.len(),
    ensures
        ({
            let best = least_squares_line(x, y);
            line_residual_squares(best, x, y) * (other.denominator * other.denominator)
                <= line_residual_squares(other, x, y) * (best.denominator * best.denominator)
        }),
{
    let n = x.len() as int;
    let best = least_squares_line(x, y);
    let d = best.denominator;
    let q = other.denominator;
    let u = q * best.slope_numerator - d * other.slope_numerator;
    let w = q * best.intercept_numerator - d * other.intercept_numerator;
    lemma_residuals_of_two_lines(x, y, best, other, n);
    least_squares_residuals_balance(x, y);
    lemma_offset_squares_nonnegative(x, u, -w, n);
    let rb = line_residual_squares(best, x, y);
    let ro = line_residual_squares(other, x, y);
    let po = prefix_offset_squares(x, u, -w, n);
    let moment = d * dot(x, y) - best.slope_numerator * dot(x, x) - best.intercept_numerator
        * sum(x);
    let total = d * sum(y) - best.slope_numerator * sum(x) - n * best.intercept_numerator;
    assert(2 * q * (u * moment + w * total) == 0) by (nonlinear_arith)
        requires
            moment == 0,
            total == 0,
    ;
    assert(rb * (q * q) <= ro * (d * d)) by (nonlinear_arith)
        requires
            d * d * ro == q * q * rb + po,
            0 <= po,
    ;
}

/// The fit of a series of two or more samples has a coefficient of
/// determination between zero and one: it is never worse than predicting
/// the mean of the series at every index.
pub proof fn fitted_r_squared_is_between_zero_and_one(series: Seq<int>)
    requires
        series.len() >= 2,
    ensures
        ({
            let r_squared = regression_of(series).r_squared;
            &&& r_squared.denominator > 0
            &&& 0 <= r_squared.numerator <= r_squared.denominator
        }),
{
    let n = series.len() as int;
    let x = time_index(series.len());
    let best = least_squares_line(x, series);
    let d = best.denominator;
    let t = spread(series);
    let rb = line_residual_squares(best, x, series);
    lemma_spread_nonnegative(series);
    time_index_denominator_is_positive(series.len());
    lemma_prefix_residual_squares_nonnegative(series, best.numerators_at(x), d, n);
    if t != 0 {
        let mean = Line { slope_numerator: 0, intercept_numerator: sum(series), denominator: n };
        least_squares_line_is_optimal(x, series, mean);
        lemma_mean_line_residual(x, series, n);
        lemma_spread_is_sum_of_squares(series);
        let ro = line_residual_squares(mean, x, series);
        assert(0 < t * (d * d)) by (nonlinear_arith)
            requires
                0 < t,
                0 < d,
        ;
        assert(0 <= n * rb) by (nonlinear_arith)
            requires
                0 < n,
                0 <= rb,
        ;
        assert(n * rb <= t * (d * d)) by (nonlinear_arith)
            requires
                0 < n,
                rb * (n * n) <= ro * (d * d),
                ro == n * t,
        ;
    }
}

/// Predictions that equal the samples exactly (in particular a series
/// evaluated against itself) have a coefficient of determination of one
/// and a mean squared error of zero.
pub proof fn perfect_prediction_scores(actual: Seq<int>, predicted: Fractions)
    requires
        actual.len() == predicted.values.len(),
        forall|i: int|
            0 <= i < actual.len() ==> #[trigger] predicted.values[i] == actual[i]
                * predicted.denominator,
    ensures
        coefficient_of_determination(actual, predicted).equals(1),
        mean_squared_error(actual, predicted).equals(0),
{
    let n = actual.len() as int;
    lemma_exact_predictions_leave_no_residual(
        actual,
        predicted.values,
        predicted.denominator,
        n,
    );
    assert(n * 0 == 0) by (nonlinear_arith);
}

/// A series evaluated against itself has a coefficient of determination of
/// one and a mean squared error of zero.
pub proof fn self_prediction_scores(actual: Seq<int>)
    ensures
        coefficient_of_determination(
            actual,
            Fractions { values: actual, denominator: 1 },
        ).equals(1),
        mean_squared_error(actual, Fractions { values: actual, denominator: 1 }).equals(0),
{
    perfect_prediction_scores(actual, Fractions { values: actual, denominator: 1 });
}

/// Predictions that miss every sample of a series with spread by the same
/// non-zero amount have a coefficient of determination below one.  The
/// amount is `miss / denominator`, where `denominator` is that of the
/// predictions.
pub proof fn shifted_prediction_scores_below_one(
    actual: Seq<int>,
    predicted: Fractions,
    miss: int,
)
    requires
        !is_constant(actual),
        miss != 0,
        predicted.denominator > 0,
        actual.len() == predicted.values.len(),
        forall|i: int|
            0 <= i < actual.len() ==> #[trigger] predicted.values[i] == actual[i]
                * predicted.denominator + miss,
    ensures
        coefficient_of_determination(actual, predicted).is_below(1),
{
    let n = actual.len() as int;
    let d = predicted.denominator;
    lemma_spread_zero_iff_constant(actual);
    lemma_spread_nonnegative(actual);
    lemma_uniform_miss_residual(actual, predicted.values, d, miss, n);
    let t = spread(actual);
    let r = residual_squares(actual, predicted);
    assert(n * r > 0) by (nonlinear_arith)
        requires
            n > 0,
            miss != 0,
            r == n * (miss * miss),
    ;
    assert(t * (d * d) > 0) by (nonlinear_arith)
        requires
            t > 0,
            d > 0,
    ;
}

/// A series of two or more samples that lies exactly on the line
/// `a * i + b` is fitted by that line: the slope is `a`, the intercept is
/// `b`, every prediction equals its sample, the coefficient of
/// determination is one and the mean squared error is zero.
pub proof fn exact_line_is_recovered(series: Seq<int>, a: int, b: int)
    requires
        series.len() >= 2,
        forall|i: int| 0 <= i < series.len() ==> #[trigger] series[i] == a * i + b,
    ensures
        ({
            let fitted = regression_of(series);
            &&& fitted.coefficients.denominator > 0
            &&& fitted.coefficients.slope_numerator == a * fitted.coefficients.denominator
            &&& fitted.coefficients.intercept_numerator == b * fitted.coefficients.denominator
            &&& forall|i: int|
                0 <= i < series.len() ==> #[trigger] fitted.predictions.values[i] == series[i]
                    * fitted.predictions.denominator
            &&& fitted.r_squared.equals(1)
            &&& fitted.mse.equals(0)
        }),
{
    let n = series.len() as int;
    let x = time_index(series.len());
    let fitted = regression_of(series);
    let line = fitted.coefficients;
    let d = line.denominator;
    time_index_denominator_is_positive(series.len());
    assert forall|i: int| 0 <= i < n implies #[trigger] series[i] == a * x[i] + b by {}
    lemma_sums_on_a_line(x, series, a, b, n);
    let sx = sum(x);
    let sy = sum(series);
    let sxx = dot(x, x);
    let sxy = dot(x, series);
    assert(n * sxy - sx * sy == a * (n * sxx - sx * sx)) by (nonlinear_arith)
        requires
            sy == a * sx + b * n,
            sxy == a * sxx + b * sx,
    ;
    assert(sy * sxx - sxy * sx == b * (n * sxx - sx * sx)) by (nonlinear_arith)
        requires
            sy == a * sx + b * n,
            sxy == a * sxx + b * sx,
    ;
    assert forall|i: int| 0 <= i < n implies #[trigger] fitted.predictions.values[i]
        == series[i] * fitted.predictions.denominator by {
        assert((a * d) * i + b * d == (a * i + b) * d) by (nonlinear_arith);
    }
    perfect_prediction_scores(series, fitted.predictions);
}

/// A constant series of two or more samples is fitted by the horizontal
/// line through its value: the slope is zero, the intercept is the value,
/// the coefficient of determination is exactly one and the mean squared
/// error is zero.
pub proof fn constant_series_is_fitted_flat(series: Seq<int>, c: int)
    requires
        series.len() >= 2,
        forall|i: int| 0 <= i < series.len() ==> #[trigger] series[i] == c,
    ensures
        ({
            let fitted = regression_of(series);
            &&& fitted.coefficients.denominator > 0
            &&& fitted.coefficients.slope_numerator == 0
            &&& fitted.coefficients.intercept_numerator == c * fitted.coefficients.denominator
            &&& fitted.r_squared == (Fraction { numerator: 1, denominator: 1 })
            &&& fitted.mse.equals(0)
        }),
{
    assert forall|i: int| 0 <= i < series.len() implies #[trigger] series[i] == 0 * i + c by {}
    exact_line_is_recovered(series, 0, c);
    let d = regression_of(series).coefficients.denominator;
    assert(0 * d == 0) by (nonlinear_arith);
    lemma_spread_zero_iff_constant(series);
}

} // verus!
