//! The estimator, the predictor and the evaluator.

use crate::bounds::{lemma_line_bounded, lemma_series_sums_bounded, lemma_time_sums_bounded};
use crate::error::LinearRegressionError;
use crate::lemmas::{lemma_prefix_dot_bound, lemma_product_bound};
use crate::model::{
    coefficient_of_determination, dot, least_squares_denominator, least_squares_line,
    mean_squared_error, prefix_dot, prefix_residual_squares, prefix_sum, regression_of,
    residual_squares, spread, sum, time_index, Fractions,
};
use crate::theorems::time_index_denominator_is_positive;
use crate::types::{
    samples, series_within_limits, times_within_limits, LinearCoefficients, Ratio,
    RegressionResult, ScaledSeries, MAX_ABS, MAX_DENOMINATOR, MAX_LEN, MAX_NUMERATOR,
    MAX_RESIDUAL, MAX_RESIDUAL_SQUARE, MAX_TIME,
};
use vstd::prelude::*;

verus! {

/// Ordinary least squares over a series indexed by `0, 1, 2, ...`.
pub struct LinearRegression;

impl LinearRegression {
    /// Decides whether a series of `len` samples determines a line: none is
    /// `EmptyData`, one is `InsufficientData`, two or more are enough.
    pub fn check_length(len: usize) -> (result: Result<(), LinearRegressionError>)
        ensures
            result == Self::length_verdict(len as nat),
    {
        if len == 0 {
            return Err(LinearRegressionError::EmptyData);
        }
        if len < 2 {
            return Err(LinearRegressionError::InsufficientData);
        }
        Ok(())
    }

    /// What `check_length` answers for a series of `len` samples.
    pub open spec fn length_verdict(len: nat) -> Result<(), LinearRegressionError> {
        if len == 0 {
            Err(LinearRegressionError::EmptyData)
        } else if len == 1 {
            Err(LinearRegressionError::InsufficientData)
        } else {
            Ok(())
        }
    }

    /// Tells whether `series` is short enough, and its samples small enough,
    /// to be fitted.
    pub fn within_limits(series: &[i32]) -> (ok: bool)
        ensures
            ok == series_within_limits(series@),
    {
        if series.len() > MAX_LEN {
            return false;
        }
        let mut i: usize = 0;
        while i < series.len()
            invariant
                i <= series.len(),
                series.len() <= MAX_LEN,
                forall|j: int| 0 <= j < i ==> -MAX_ABS <= #[trigger] series@[j] <= MAX_ABS,
            decreases series.len() - i,
        {
            let v = series[i];
            if v < -MAX_ABS || v > MAX_ABS {
                return false;
            }
            i += 1;
        }
        true
    }

    /// Tells whether `x` holds time coordinates that the estimator accepts:
    /// no more than `MAX_LEN`, each at most `MAX_TIME` in magnitude.
    pub fn times_are_within_limits(x: &[i32]) -> (ok: bool)
        ensures
            ok == times_within_limits(x@),
    {
        if x.len() > MAX_LEN {
            return false;
        }
        let mut i: usize = 0;
        while i < x.len()
            invariant
                i <= x.len(),
                x.len() <= MAX_LEN,
                forall|j: int| 0 <= j < i ==> -MAX_TIME <= #[trigger] x@[j] <= MAX_TIME,
            decreases x.len() - i,
        {
            let v = x[i];
            if v < -MAX_TIME || v > MAX_TIME {
                return false;
            }
            i += 1;
        }
        true
    }

    /// The sum of `values`.
    fn sum_of(values: &[i32]) -> (total: i128)
        ensures
            total == sum(samples(values@)),
    {
        let mut total: i128 = 0;
        let mut i: usize = 0;
        while i < values.len()
            invariant
                i <= values.len(),
                total == prefix_sum(samples(values@), i as int),
                -(i * 0x8000_0000) <= total <= i * 0x8000_0000,
            decreases values.len() - i,
        {
            total = total + values[i] as i128;
            i += 1;
        }
        total
    }

    /// The sum of the products of corresponding elements of `a` and `b`.
    fn dot_of(a: &[i32], b: &[i32]) -> (total: i128)
        requires
            a.len() == b.len(),
        ensures
            total == dot(samples(a@), samples(b@)),
    {
        let mut total: i128 = 0;
        let mut i: usize = 0;
        while i < a.len()
            invariant
                i <= a.len(),
                a.len() == b.len(),
                total == prefix_dot(samples(a@), samples(b@), i as int),
                -(i * 0x4000_0000_0000_0000) <= total <= i * 0x4000_0000_0000_0000,
            decreases a.len() - i,
        {
            proof {
                lemma_product_bound(
                    a[i as int] as int,
                    b[i as int] as int,
                    0x8000_0000,
                    0x8000_0000,
                );
            }
            total = total + (a[i] as i128) * (b[i] as i128);
            i += 1;
        }
        total
    }

    /// Computes the least-squares line through the points `(x[i], y[i])`.
    ///
    /// Fails with `InvalidInput` exactly when the denominator
    /// `n * sum(x^2) - (sum x)^2` is zero, which is when all `x[i]` are equal
    /// (or there is no point at all).
    pub fn calculate_coefficients(x: &[i32], y: &[i32]) -> (result: Result<
        LinearCoefficients,
        LinearRegressionError,
    >)
        requires
            x.len() == y.len(),
            times_within_limits(x@),
            series_within_limits(y@),
        ensures
            match result {
                Ok(c) => {
                    &&& least_squares_denominator(samples(x@)) != 0
                    &&& c@ == least_squares_line(samples(x@), samples(y@))
                    &&& c.wf()
                },
                Err(e) => {
                    &&& e == LinearRegressionError::InvalidInput
                    &&& least_squares_denominator(samples(x@)) == 0
                },
            },
    {
        let n = x.len() as i128;
        let sum_x = Self::sum_of(x);
        let sum_y = Self::sum_of(y);
        let sum_xy = Self::dot_of(x, y);
        let sum_x2 = Self::dot_of(x, x);
        proof {
            lemma_time_sums_bounded(x@);
            lemma_series_sums_bounded(y@);
            lemma_line_bounded(x@, y@);
            lemma_product_bound(n as int, sum_x2 as int, 256, 16_777_216);
            lemma_product_bound(sum_x as int, sum_x as int, 65_536, 65_536);
        }
        let denominator = n * sum_x2 - sum_x * sum_x;
        if denominator == 0 {
            return Err(LinearRegressionError::InvalidInput);
        }
        proof {
            lemma_prefix_dot_bound(
                samples(x@),
                samples(y@),
                n as int,
                256,
                MAX_ABS as int,
            );
            lemma_product_bound(n as int, sum_xy as int, 256, 65_536_000_000);
            lemma_product_bound(sum_x as int, sum_y as int, 65_536, 256_000_000);
            lemma_product_bound(sum_y as int, sum_x2 as int, 256_000_000, 16_777_216);
            lemma_product_bound(sum_xy as int, sum_x as int, 65_536_000_000, 65_536);
        }
        let slope_numerator = n * sum_xy - sum_x * sum_y;
        let intercept_numerator = sum_y * sum_x2 - sum_xy * sum_x;
        Ok(
            LinearCoefficients {
                slope_numerator: slope_numerator as i64,
                intercept_numerator: intercept_numerator as i64,
                denominator: denominator as i64,
            },
        )
    }

    /// Evaluates the line at each of `x`, in order.
    pub fn predict_range(x: &[i32], coefficients: &LinearCoefficients) -> (predictions:
        ScaledSeries)
        ensures
            predictions@ == (Fractions {
                values: coefficients@.numerators_at(samples(x@)),
                denominator: coefficients@.denominator,
            }),
            predictions.values.len() == x.len(),
            forall|j: int|
                0 <= j < x.len() ==> #[trigger] predictions.values@[j]
                    == coefficients.slope_numerator * x@[j] + coefficients.intercept_numerator,
            predictions.wf() == coefficients.wf(),
    {
        let mut values: Vec<i128> = Vec::new();
        let mut i: usize = 0;
        while i < x.len()
            invariant
                i <= x.len(),
                values@.len() == i,
                forall|j: int|
                    0 <= j < i ==> #[trigger] values@[j] == coefficients@.numerator_at(
                        samples(x@)[j],
                    ),
            decreases x.len() - i,
        {
            proof {
                lemma_product_bound(
                    coefficients.slope_numerator as int,
                    x[i as int] as int,
                    0x8000_0000_0000_0000,
                    0x8000_0000,
                );
            }
            let value = (coefficients.slope_numerator as i128) * (x[i] as i128)
                + (coefficients.intercept_numerator as i128);
            values.push(value);
            i += 1;
        }
        let predictions = ScaledSeries { values, denominator: coefficients.denominator };
        assert(predictions@.values =~= coefficients@.numerators_at(samples(x@)));
        predictions
    }

    /// Evaluates the line at the time indices `0, 1, ..., periods - 1`.
    pub fn forecast(coefficients: &LinearCoefficients, periods: usize) -> (predictions:
        ScaledSeries)
        ensures
            predictions@ == (Fractions {
                values: coefficients@.numerators_at(time_index(periods as nat)),
                denominator: coefficients@.denominator,
            }),
            predictions.values.len() == periods,
            forall|j: int|
                0 <= j < periods ==> #[trigger] predictions.values@[j]
                    == coefficients.slope_numerator * j + coefficients.intercept_numerator,
            predictions.wf() == coefficients.wf(),
    {
        let mut values: Vec<i128> = Vec::new();
        let mut i: usize = 0;
        while i < periods
            invariant
                i <= periods,
                values@.len() == i,
                forall|j: int|
                    0 <= j < i ==> #[trigger] values@[j] == coefficients@.numerator_at(j),
            decreases periods - i,
        {
            proof {
                lemma_product_bound(
                    coefficients.slope_numerator as int,
                    i as int,
                    0x8000_0000_0000_0000,
                    0xffff_ffff_ffff_ffff,
                );
            }
            let value = (coefficients.slope_numerator as i128) * (i as i128)
                + (coefficients.intercept_numerator as i128);
            values.push(value);
            i += 1;
        }
        let predictions = ScaledSeries { values, denominator: coefficients.denominator };
        assert(predictions@.values =~= coefficients@.numerators_at(time_index(periods as nat)));
        predictions
    }

    /// The sum of the squares of `actual[i] * den - predicted[i]`, where `den`
    /// is the denominator of the predictions.
    fn residual_squares_of(actual: &[i32], predicted: &ScaledSeries) -> (total: i128)
        requires
            actual.len() == predicted.values.len(),
            series_within_limits(actual@),
            predicted.within_limits(),
        ensures
            total == residual_squares(samples(actual@), predicted@),
            0 <= total <= actual.len() * MAX_RESIDUAL_SQUARE,
    {
        let den = predicted.denominator as i128;
        let mut total: i128 = 0;
        let mut i: usize = 0;
        while i < actual.len()
            invariant
                i <= actual.len(),
                actual.len() == predicted.values.len(),
                series_within_limits(actual@),
                predicted.within_limits(),
                den == predicted.denominator,
                total == prefix_residual_squares(
                    samples(actual@),
                    predicted@.values,
                    den as int,
                    i as int,
                ),
                0 <= total <= i * MAX_RESIDUAL_SQUARE,
            decreases actual.len() - i,
        {
            proof {
                lemma_product_bound(
                    actual[i as int] as int,
                    den as int,
                    MAX_ABS as int,
                    MAX_DENOMINATOR as int,
                );
            }
            let r = (actual[i] as i128) * den - predicted.values[i];
            assert(0 <= r * r <= MAX_RESIDUAL_SQUARE) by (nonlinear_arith)
                requires
                    -MAX_RESIDUAL <= r <= MAX_RESIDUAL,
                    MAX_RESIDUAL * MAX_RESIDUAL == MAX_RESIDUAL_SQUARE,
            ;
            total = total + r * r;
            i += 1;
        }
        total
    }

    /// The coefficient of determination of `predicted` against `actual`:
    /// one minus the residual sum of squares over the total sum of squares,
    /// and exactly one where `actual` has no spread.
    pub fn calculate_r_squared(actual: &[i32], predicted: &ScaledSeries) -> (r_squared: Ratio)
        requires
            actual.len() == predicted.values.len(),
            series_within_limits(actual@),
            predicted.within_limits(),
        ensures
            r_squared@ == coefficient_of_determination(samples(actual@), predicted@),
            r_squared.wf(),
            r_squared.numerator <= r_squared.denominator,
    {
        let n = actual.len() as i128;
        let sum_y = Self::sum_of(actual);
        let sum_y2 = Self::dot_of(actual, actual);
        proof {
            lemma_series_sums_bounded(actual@);
            lemma_product_bound(n as int, sum_y2 as int, 256, 256_000_000_000_000);
            lemma_product_bound(sum_y as int, sum_y as int, 256_000_000, 256_000_000);
        }
        let total = n * sum_y2 - sum_y * sum_y;
        let residual = Self::residual_squares_of(actual, predicted);
        if total == 0 {
            return Ratio { numerator: 1, denominator: 1 };
        }
        let den = predicted.denominator as i128;
        proof {
            lemma_product_bound(
                den as int,
                den as int,
                MAX_DENOMINATOR as int,
                MAX_DENOMINATOR as int,
            );
            assert(0 < den * den) by (nonlinear_arith)
                requires
                    0 < den,
            ;
            lemma_product_bound(
                total as int,
                (den * den) as int,
                65_536_000_000_000_000,
                18_446_744_073_709_551_616,
            );
            assert(0 < total * (den * den)) by (nonlinear_arith)
                requires
                    0 < total,
                    0 < den * den,
            ;
            lemma_product_bound(
                n as int,
                residual as int,
                256,
                127_413_197_476_559_056_066_955_916_435_521_536,
            );
            assert(0 <= n * residual) by (nonlinear_arith)
                requires
                    0 <= n,
                    0 <= residual,
            ;
        }
        let den2 = den * den;
        let scaled_total = total * den2;
        Ratio { numerator: scaled_total - n * residual, denominator: scaled_total }
    }

    /// The mean of the squared differences between `actual` and `predicted`.
    pub fn calculate_mse(actual: &[i32], predicted: &ScaledSeries) -> (mse: Ratio)
        requires
            actual.len() > 0,
            actual.len() == predicted.values.len(),
            series_within_limits(actual@),
            predicted.within_limits(),
        ensures
            mse@ == mean_squared_error(samples(actual@), predicted@),
            mse.wf(),
            mse.numerator >= 0,
    {
        let n = actual.len() as i128;
        let residual = Self::residual_squares_of(actual, predicted);
        let den = predicted.denominator as i128;
        proof {
            lemma_product_bound(
                den as int,
                den as int,
                MAX_DENOMINATOR as int,
                MAX_DENOMINATOR as int,
            );
            assert(0 < den * den) by (nonlinear_arith)
                requires
                    0 < den,
            ;
            lemma_product_bound(n as int, (den * den) as int, 256, 18_446_744_073_709_551_616);
            assert(0 < n * (den * den)) by (nonlinear_arith)
                requires
                    0 < n,
                    0 < den * den,
            ;
        }
        Ratio { numerator: residual, denominator: n * (den * den) }
    }

    /// Fits a line to `series` against the time index `0, 1, ..., n - 1` and
    /// reports the coefficients, the in-sample predictions and the quality
    /// of the fit.
    ///
    /// Fails with `EmptyData` on an empty series and with `InsufficientData`
    /// on a series of one sample.  The denominator of the fit is never zero
    /// for two or more samples, so `InvalidInput` is never returned.
    pub fn fit(series: &[i32]) -> (result: Result<RegressionResult, LinearRegressionError>)
        requires
            series_within_limits(series@),
        ensures
            match result {
                Ok(r) => {
                    &&& series.len() >= 2
                    &&& r@ == regression_of(samples(series@))
                    &&& r.predictions.values.len() == series.len()
                    &&& r.coefficients.wf()
                    &&& r.predictions.within_limits()
                    &&& r.r_squared.wf()
                    &&& r.mse.wf()
                },
                Err(e) => {
                    ||| series.len() == 0 && e == LinearRegressionError::EmptyData
                    ||| series.len() == 1 && e == LinearRegressionError::InsufficientData
                },
            },
    {
        match Self::check_length(series.len()) {
            Ok(()) => {},
            Err(e) => {
                return Err(e);
            },
        }
        let n = series.len();
        let mut x: Vec<i32> = Vec::new();
        let mut i: usize = 0;
        while i < n
            invariant
                i <= n <= MAX_LEN,
                x@.len() == i,
                forall|j: int| 0 <= j < i ==> #[trigger] x@[j] == j,
            decreases n - i,
        {
            x.push(i as i32);
            i += 1;
        }
        let ghost times = time_index(n as nat);
        proof {
            assert(samples(x@) =~= times);
            time_index_denominator_is_positive(n as nat);
            lemma_line_bounded(x@, series@);
        }
        let coefficients = match Self::calculate_coefficients(x.as_slice(), series) {
            Ok(c) => c,
            Err(e) => {
                return Err(e);
            },
        };
        let predictions = Self::predict_range(x.as_slice(), &coefficients);
        proof {
            assert forall|j: int| 0 <= j < predictions.values@.len() implies -MAX_NUMERATOR
                <= #[trigger] predictions.values@[j] <= MAX_NUMERATOR by {
                lemma_product_bound(
                    coefficients@.slope_numerator,
                    j,
                    33_554_432_000_000,
                    256,
                );
            }
        }
        let r_squared = Self::calculate_r_squared(series, &predictions);
        let mse = Self::calculate_mse(series, &predictions);
        Ok(RegressionResult { coefficients, r_squared, mse, predictions })
    }
}

} // verus!
