//! The executable data types, their views and the limits within which every
//! intermediate quantity fits in 128 bits.

use crate::model::{Fraction, Fractions, Line, Regression};
use vstd::prelude::*;

verus! {

// The limits below are what exact arithmetic in 128 bits allows.  The
// largest quantity that an evaluation forms is the residual sum of squares
// multiplied by the number of samples, at most
// `MAX_LEN^2 * MAX_RESIDUAL^2`, which is a little under `2^125`.  A fit of a
// series within limits yields a denominator of at most `MAX_DENOMINATOR` and
// numerators of at most `MAX_NUMERATOR`, so its predictions can be evaluated.

/// The longest series that can be fitted or evaluated.
pub const MAX_LEN: usize = 256;

/// The largest magnitude of a sample.
pub const MAX_ABS: i32 = 1_000_000;

/// The largest magnitude of a time coordinate handed to the estimator.
pub const MAX_TIME: i32 = 256;

/// The largest denominator of a series of fractions that can be evaluated:
/// `2^32`, which is `MAX_LEN^2 * MAX_TIME^2`.
pub const MAX_DENOMINATOR: i64 = 4_294_967_296;

/// The largest magnitude of a numerator in a series of fractions that can be
/// evaluated: `2^54`.
pub const MAX_NUMERATOR: i128 = 18_014_398_509_481_984;

/// The largest magnitude of `actual * denominator - numerator` for a sample
/// and a fraction within limits: `MAX_ABS * MAX_DENOMINATOR + MAX_NUMERATOR`.
pub const MAX_RESIDUAL: i128 = 22_309_365_805_481_984;

/// The square of `MAX_RESIDUAL`.
pub const MAX_RESIDUAL_SQUARE: i128 = 497_707_802_642_808_812_761_546_548_576_256;

/// The samples of a series as mathematical integers.
pub open spec fn samples(s: Seq<i32>) -> Seq<int> {
    Seq::new(s.len(), |i: int| s[i] as int)
}

/// The numerators of a series of fractions as mathematical integers.
pub open spec fn numerators(s: Seq<i128>) -> Seq<int> {
    Seq::new(s.len(), |i: int| s[i] as int)
}

/// A series is within limits when it is short enough and each of its
/// samples is small enough for exact arithmetic in 128 bits.
pub open spec fn series_within_limits(s: Seq<i32>) -> bool {
    &&& s.len() <= MAX_LEN
    &&& forall|i: int| 0 <= i < s.len() ==> -MAX_ABS <= #[trigger] s[i] <= MAX_ABS
}

/// Time coordinates are within limits when each is at most `MAX_TIME` in
/// magnitude.
pub open spec fn times_within_limits(s: Seq<i32>) -> bool {
    &&& s.len() <= MAX_LEN
    &&& forall|i: int| 0 <= i < s.len() ==> -MAX_TIME <= #[trigger] s[i] <= MAX_TIME
}

/// An exact fraction `numerator / denominator` with a positive denominator.
#[derive(Debug, Clone, Copy)]
pub struct Ratio {
    pub numerator: i128,
    pub denominator: i128,
}

impl View for Ratio {
    type V = Fraction;

    open spec fn view(&self) -> Fraction {
        Fraction { numerator: self.numerator as int, denominator: self.denominator as int }
    }
}

impl Ratio {
    /// The denominator is positive.
    pub open spec fn wf(&self) -> bool {
        self.denominator > 0
    }
}

/// The coefficients of a fitted line `y = slope * t + intercept`, where
/// `slope = slope_numerator / denominator` and
/// `intercept = intercept_numerator / denominator`.
#[derive(Debug, Clone, Copy, PartialEq, Eq, Structural)]
pub struct LinearCoefficients {
    pub slope_numerator: i64,
    pub intercept_numerator: i64,
    pub denominator: i64,
}

impl View for LinearCoefficients {
    type V = Line;

    open spec fn view(&self) -> Line {
        Line {
            slope_numerator: self.slope_numerator as int,
            intercept_numerator: self.intercept_numerator as int,
            denominator: self.denominator as int,
        }
    }
}

impl LinearCoefficients {
    /// The denominator is positive.
    pub open spec fn wf(&self) -> bool {
        self.denominator > 0
    }

    /// The slope as a fraction.
    pub fn slope(&self) -> (r: Ratio)
        ensures
            r@ == (Fraction {
                numerator: self@.slope_numerator,
                denominator: self@.denominator,
            }),
    {
        Ratio { numerator: self.slope_numerator as i128, denominator: self.denominator as i128 }
    }

    /// The intercept as a fraction.
    pub fn intercept(&self) -> (r: Ratio)
        ensures
            r@ == (Fraction {
                numerator: self@.intercept_numerator,
                denominator: self@.denominator,
            }),
    {
        Ratio { numerator: self.intercept_numerator as i128, denominator: self.denominator as i128 }
    }
}

/// An ordered sequence of fractions `values[i] / denominator`.
#[derive(Debug, Clone)]
pub struct ScaledSeries {
    pub values: Vec<i128>,
    pub denominator: i64,
}

impl View for ScaledSeries {
    type V = Fractions;

    open spec fn view(&self) -> Fractions {
        Fractions { values: numerators(self.values@), denominator: self.denominator as int }
    }
}

impl ScaledSeries {
    /// The denominator is positive.
    pub open spec fn wf(&self) -> bool {
        self.denominator > 0
    }

    /// The series is well formed and small enough to be evaluated against a
    /// series of samples.
    pub open spec fn within_limits(&self) -> bool {
        &&& self.wf()
        &&& self.denominator <= MAX_DENOMINATOR
        &&& self.values@.len() <= MAX_LEN
        &&& forall|i: int|
            0 <= i < self.values@.len() ==> -MAX_NUMERATOR <= #[trigger] self.values@[i]
                <= MAX_NUMERATOR
    }

    /// Tells whether the series is well formed and small enough to be
    /// evaluated.
    pub fn is_within_limits(&self) -> (ok: bool)
        ensures
            ok == self.within_limits(),
    {
        if self.denominator <= 0 || self.denominator > MAX_DENOMINATOR {
            return false;
        }
        if self.values.len() > MAX_LEN {
            return false;
        }
        let mut i: usize = 0;
        while i < self.values.len()
            invariant
                i <= self.values.len(),
                self.values.len() <= MAX_LEN,
                0 < self.denominator <= MAX_DENOMINATOR,
                forall|j: int|
                    0 <= j < i ==> -MAX_NUMERATOR <= #[trigger] self.values@[j] <= MAX_NUMERATOR,
            decreases self.values.len() - i,
        {
            let v = self.values[i];
            if v < -MAX_NUMERATOR || v > MAX_NUMERATOR {
                return false;
            }
            i += 1;
        }
        true
    }

    /// The number of fractions in the series.
    pub fn len(&self) -> (n: usize)
        ensures
            n == self@.values.len(),
    {
        self.values.len()
    }

    /// The fraction at position `i`.
    pub fn get(&self, i: usize) -> (r: Ratio)
        requires
            i < self@.values.len(),
        ensures
            r@ == (Fraction {
                numerator: self@.values[i as int],
                denominator: self@.denominator,
            }),
    {
        Ratio { numerator: self.values[i], denominator: self.denominator as i128 }
    }
}

/// The outcome of a successful fit.
#[derive(Debug, Clone)]
pub struct RegressionResult {
    pub coefficients: LinearCoefficients,
    pub r_squared: Ratio,
    pub mse: Ratio,
    pub predictions: ScaledSeries,
}

impl View for RegressionResult {
    type V = Regression;

    open spec fn view(&self) -> Regression {
        Regression {
            coefficients: self.coefficients@,
            r_squared: self.r_squared@,
            mse: self.mse@,
            predictions: self.predictions@,
        }
    }
}

} // verus!
