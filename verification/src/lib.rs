//! Exact least-squares trend estimation over integer time series.
//!
//! A series of integer samples is fitted against the implicit time index
//! `0, 1, 2, ...`.  Every result is an exact fraction: no rounding takes
//! place anywhere, so the contracts speak about the mathematical values.
//!
//! - [`model`] defines the sums and the least-squares quantities over
//!   mathematical integers.
//! - [`types`] holds the executable data types, their views into the model
//!   and the limits that keep the arithmetic within 128 bits.
//! - [`regression`] holds the estimator, the predictor and the evaluator.
//! - [`theorems`] states what holds of the model for every input: an exact
//!   line is recovered, the fitted line is optimal, and how the quality
//!   measures behave.
//! - [`lemmas`] and [`bounds`] hold the facts that the proofs rest on.

pub mod bounds;
pub mod error;
pub mod lemmas;
pub mod model;
pub mod regression;
pub mod theorems;
pub mod types;

pub use error::LinearRegressionError;
pub use regression::LinearRegression;
pub use types::{LinearCoefficients, Ratio, RegressionResult, ScaledSeries};
