//! The mathematical model: sums over integer sequences and the exact
//! least-squares quantities built from them.

use vstd::prelude::*;

verus! {

/// The sum of the first `k` elements of `s`.
pub open spec fn prefix_sum(s: Seq<int>, k: int) -> int
    decreases k,
{
    if k <= 0 {
        0
    } else {
        prefix_sum(s, k - 1) + s[k - 1]
    }
}

/// The sum of the products `a[i] * b[i]` over the first `k` positions.
pub open spec fn prefix_dot(a: Seq<int>, b: Seq<int>, k: int) -> int
    decreases k,
{
    if k <= 0 {
        0
    } else {
        prefix_dot(a, b, k - 1) + a[k - 1] * b[k - 1]
    }
}

/// The sum of the squares `(scale * s[i] - shift)^2` over the first `k` positions.
pub open spec fn prefix_offset_squares(s: Seq<int>, scale: int, shift: int, k: int) -> int
    decreases k,
{
    if k <= 0 {
        0
    } else {
        prefix_offset_squares(s, scale, shift, k - 1) + (scale * s[k - 1] - shift) * (scale * s[k
            - 1] - shift)
    }
}

/// The sum of the squares `(actual[i] * den - predicted[i])^2` over the first
/// `k` positions: the residual sum of squares of the fractions
/// `predicted[i] / den`, scaled by `den^2`.
pub open spec fn prefix_residual_squares(
    actual: Seq<int>,
    predicted: Seq<int>,
    den: int,
    k: int,
) -> int
    decreases k,
{
    if k <= 0 {
        0
    } else {
        prefix_residual_squares(actual, predicted, den, k - 1) + (actual[k - 1] * den
            - predicted[k - 1]) * (actual[k - 1] * den - predicted[k - 1])
    }
}

/// The sum of all elements of `s`.
pub open spec fn sum(s: Seq<int>) -> int {
    prefix_sum(s, s.len() as int)
}

/// The sum of the products of corresponding elements of `a` and `b`.
pub open spec fn dot(a: Seq<int>, b: Seq<int>) -> int {
    prefix_dot(a, b, a.len() as int)
}

/// `n * sum(s[i]^2) - (sum s[i])^2`: the sum of squared deviations of `s`
/// from its mean, multiplied by the length `n`.
pub open spec fn spread(s: Seq<int>) -> int {
    s.len() * dot(s, s) - sum(s) * sum(s)
}

/// All elements of `s` are equal.
pub open spec fn is_constant(s: Seq<int>) -> bool {
    forall|i: int, j: int| 0 <= i < s.len() && 0 <= j < s.len() ==> s[i] == s[j]
}

/// The time index `0, 1, ..., n - 1`.
pub open spec fn time_index(n: nat) -> Seq<int> {
    Seq::new(n, |i: int| i)
}

/// A line whose slope and intercept are fractions over one denominator:
/// `y = (slope_numerator * t + intercept_numerator) / denominator`.
pub ghost struct Line {
    pub slope_numerator: int,
    pub intercept_numerator: int,
    pub denominator: int,
}

impl Line {
    /// The numerator, over `denominator`, of the line's value at `t`.
    pub open spec fn numerator_at(self, t: int) -> int {
        self.slope_numerator * t + self.intercept_numerator
    }

    /// The numerators of the line's values at each element of `ts`.
    pub open spec fn numerators_at(self, ts: Seq<int>) -> Seq<int> {
        Seq::new(ts.len(), |i: int| self.numerator_at(ts[i]))
    }
}

/// A fraction `numerator / denominator`.
pub ghost struct Fraction {
    pub numerator: int,
    pub denominator: int,
}

impl Fraction {
    /// The fraction equals the integer `v`.
    pub open spec fn equals(self, v: int) -> bool {
        self.numerator == v * self.denominator
    }

    /// The fraction has a positive denominator and is less than the
    /// integer `v`.
    pub open spec fn is_below(self, v: int) -> bool {
        self.denominator > 0 && self.numerator < v * self.denominator
    }
}

/// A sequence of fractions `values[i] / denominator`.
pub ghost struct Fractions {
    pub values: Seq<int>,
    pub denominator: int,
}

/// The least-squares denominator `n * sum(x^2) - (sum x)^2`.
pub open spec fn least_squares_denominator(x: Seq<int>) -> int {
    spread(x)
}

/// The least-squares line through the points `(x[i], y[i])`.
///
/// With `d = n * sum(x^2) - (sum x)^2` the slope is
/// `(n * sum(x*y) - sum(x) * sum(y)) / d` and the intercept is
/// `(sum(y) * sum(x^2) - sum(x*y) * sum(x)) / d`, which is the mean of
/// `y[i] - slope * x[i]`.
pub open spec fn least_squares_line(x: Seq<int>, y: Seq<int>) -> Line {
    Line {
        slope_numerator: x.len() * dot(x, y) - sum(x) * sum(y),
        intercept_numerator: sum(y) * dot(x, x) - dot(x, y) * sum(x),
        denominator: least_squares_denominator(x),
    }
}

/// The residual sum of squares of `predicted` against `actual`, scaled by
/// the square of the predictions' denominator.
pub open spec fn residual_squares(actual: Seq<int>, predicted: Fractions) -> int {
    prefix_residual_squares(actual, predicted.values, predicted.denominator, actual.len() as int)
}

/// The residual sum of squares of `line` against the points `(x[i], y[i])`,
/// scaled by the square of the line's denominator.
pub open spec fn line_residual_squares(line: Line, x: Seq<int>, y: Seq<int>) -> int {
    residual_squares(
        y,
        Fractions { values: line.numerators_at(x), denominator: line.denominator },
    )
}

/// The mean squared error: the residual sum of squares divided by the
/// number of samples.
pub open spec fn mean_squared_error(actual: Seq<int>, predicted: Fractions) -> Fraction {
    Fraction {
        numerator: residual_squares(actual, predicted),
        denominator: actual.len() * (predicted.denominator * predicted.denominator),
    }
}

/// The coefficient of determination.
///
/// With `t = spread(actual)`, the total sum of squares is `t / n` and the
/// residual sum of squares is `r / den^2`, so that
/// `1 - rss / tss = (t * den^2 - n * r) / (t * den^2)`.
/// For a series without spread the result is one by definition.
pub open spec fn coefficient_of_determination(
    actual: Seq<int>,
    predicted: Fractions,
) -> Fraction {
    let t = spread(actual);
    let d2 = predicted.denominator * predicted.denominator;
    if t == 0 {
        Fraction { numerator: 1, denominator: 1 }
    } else {
        Fraction {
            numerator: t * d2 - actual.len() * residual_squares(actual, predicted),
            denominator: t * d2,
        }
    }
}

/// Everything a successful fit reports.
pub ghost struct Regression {
    pub coefficients: Line,
    pub r_squared: Fraction,
    pub mse: Fraction,
    pub predictions: Fractions,
}

/// The regression of `series` against the time index `0, 1, ..., n - 1`.
pub open spec fn regression_of(series: Seq<int>) -> Regression {
    let x = time_index(series.len());
    let line = least_squares_line(x, series);
    let predictions = Fractions {
        values: line.numerators_at(x),
        denominator: line.denominator,
    };
    Regression {
        coefficients: line,
        r_squared: coefficient_of_determination(series, predictions),
        mse: mean_squared_error(series, predictions),
        predictions,
    }
}

} // verus!
