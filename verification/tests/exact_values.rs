use timewise_analytics::{
    LinearCoefficients, LinearRegression, LinearRegressionError, ScaledSeries,
};

fn whole(values: &[i128]) -> ScaledSeries {
    ScaledSeries { values: values.to_vec(), denominator: 1 }
}

#[test]
fn coefficients_of_a_noisy_series_are_exact() {
    // n = 5, sum_x = 10, sum_x2 = 30, sum_y = 655, sum_xy = 1455.
    let result = LinearRegression::fit(&[100, 120, 130, 145, 160]).unwrap();
    assert_eq!(result.coefficients.denominator, 50);
    assert_eq!(result.coefficients.slope_numerator, 725);
    assert_eq!(result.coefficients.intercept_numerator, 5100);
    assert_eq!(result.predictions.denominator, 50);
    assert_eq!(result.predictions.values, vec![5100, 5825, 6550, 7275, 8000]);
    // Residuals times 50: -100, 175, -50, -25, 0.
    assert_eq!(result.mse.numerator, 43_750);
    assert_eq!(result.mse.denominator, 5 * 50 * 50);
    // spread = 5 * 87_925 - 655^2 = 10_600.
    assert_eq!(result.r_squared.denominator, 10_600 * 2500);
    assert_eq!(result.r_squared.numerator, 10_600 * 2500 - 5 * 43_750);
}

#[test]
fn decreasing_series_has_negative_slope() {
    let result = LinearRegression::fit(&[50, 45, 40, 35, 30]).unwrap();
    let c = result.coefficients;
    assert!(c.denominator > 0);
    assert_eq!(c.slope_numerator, -5 * c.denominator);
    assert_eq!(c.intercept_numerator, 50 * c.denominator);
    assert_eq!(result.mse.numerator, 0);
    assert_eq!(result.r_squared.numerator, result.r_squared.denominator);
}

#[test]
fn exact_line_is_recovered_for_two_samples() {
    let result = LinearRegression::fit(&[-7, 4]).unwrap();
    let c = result.coefficients;
    assert_eq!(c.denominator, 1);
    assert_eq!(c.slope_numerator, 11);
    assert_eq!(c.intercept_numerator, -7);
    assert_eq!(result.predictions.values, vec![-7, 4]);
    assert_eq!(result.mse.numerator, 0);
    assert_eq!(result.r_squared.numerator, result.r_squared.denominator);
}

#[test]
fn constant_series_scores_exactly_one() {
    let result = LinearRegression::fit(&[-3, -3, -3]).unwrap();
    let c = result.coefficients;
    assert_eq!(c.slope_numerator, 0);
    assert_eq!(c.intercept_numerator, -3 * c.denominator);
    assert_eq!(result.r_squared.numerator, 1);
    assert_eq!(result.r_squared.denominator, 1);
    assert_eq!(result.mse.numerator, 0);
}

#[test]
fn predictions_are_as_long_as_the_series() {
    let series: Vec<i32> = (0..40).map(|i| (i * i) % 17 - 8).collect();
    let result = LinearRegression::fit(&series).unwrap();
    assert_eq!(result.predictions.len(), series.len());
    assert_eq!(result.predictions.denominator, result.coefficients.denominator);
}

#[test]
fn fit_is_repeatable() {
    let series = [3, 1, 4, 1, 5, 9, 2, 6];
    let first = LinearRegression::fit(&series).unwrap();
    let second = LinearRegression::fit(&series).unwrap();
    assert_eq!(first.coefficients.slope_numerator, second.coefficients.slope_numerator);
    assert_eq!(first.coefficients.intercept_numerator, second.coefficients.intercept_numerator);
    assert_eq!(first.coefficients.denominator, second.coefficients.denominator);
    assert_eq!(first.r_squared.numerator, second.r_squared.numerator);
    assert_eq!(first.r_squared.denominator, second.r_squared.denominator);
    assert_eq!(first.mse.numerator, second.mse.numerator);
    assert_eq!(first.mse.denominator, second.mse.denominator);
    assert_eq!(first.predictions.values, second.predictions.values);
    assert_eq!(first.predictions.denominator, second.predictions.denominator);
}

#[test]
fn fit_at_the_limits_does_not_overflow() {
    let series: Vec<i32> =
        (0..256).map(|i| if i % 2 == 0 { 1_000_000 } else { -1_000_000 }).collect();
    assert!(LinearRegression::within_limits(&series));
    let result = LinearRegression::fit(&series).unwrap();
    assert_eq!(result.coefficients.denominator, 256i64 * 256 * (256 * 256 - 1) / 12);
    assert!(result.r_squared.denominator > 0);
    assert!(result.r_squared.numerator >= 0);
    assert!(result.r_squared.numerator < result.r_squared.denominator);
    assert!(result.mse.numerator > 0);
}

#[test]
fn within_limits_checks_length_and_magnitude() {
    assert!(LinearRegression::within_limits(&[]));
    assert!(LinearRegression::within_limits(&[1_000_000, -1_000_000]));
    assert!(!LinearRegression::within_limits(&[1_000_001]));
    assert!(!LinearRegression::within_limits(&[0, -1_000_001]));
    assert!(LinearRegression::within_limits(&vec![0; 256]));
    assert!(!LinearRegression::within_limits(&vec![0; 257]));
}

#[test]
fn coefficients_through_arbitrary_abscissas() {
    // Points (1, 2), (2, 3), (4, 7): n = 3, sum_x = 7, sum_y = 12,
    // sum_xy = 36, sum_x2 = 21.
    let c = LinearRegression::calculate_coefficients(&[1, 2, 4], &[2, 3, 7]).unwrap();
    assert_eq!(c.denominator, 3 * 21 - 49);
    assert_eq!(c.slope_numerator, 3 * 36 - 7 * 12);
    assert_eq!(c.intercept_numerator, 12 * 21 - 36 * 7);
    // intercept = (sum_y - slope * sum_x) / n
    assert_eq!(3 * c.intercept_numerator, 12 * c.denominator - c.slope_numerator * 7);
}

#[test]
fn equal_abscissas_are_invalid_input() {
    let result = LinearRegression::calculate_coefficients(&[3, 3, 3], &[1, 2, 3]);
    assert!(matches!(result, Err(LinearRegressionError::InvalidInput)));
}

#[test]
fn no_points_are_invalid_input() {
    let result = LinearRegression::calculate_coefficients(&[], &[]);
    assert!(matches!(result, Err(LinearRegressionError::InvalidInput)));
}

#[test]
fn predict_range_applies_fractional_coefficients() {
    let c = LinearCoefficients { slope_numerator: 3, intercept_numerator: -1, denominator: 2 };
    let p = LinearRegression::predict_range(&[-2, 0, 5], &c);
    assert_eq!(p.values, vec![-7, -1, 14]);
    assert_eq!(p.denominator, 2);
    let at = p.get(2);
    assert_eq!((at.numerator, at.denominator), (14, 2));
}

#[test]
fn predict_range_of_nothing_is_empty() {
    let c = LinearCoefficients { slope_numerator: 3, intercept_numerator: -1, denominator: 2 };
    let p = LinearRegression::predict_range(&[], &c);
    assert_eq!(p.len(), 0);
}

#[test]
fn forecast_of_zero_periods_is_empty() {
    let c = LinearCoefficients { slope_numerator: 1, intercept_numerator: 10, denominator: 1 };
    let f = LinearRegression::forecast(&c, 0);
    assert_eq!(f.len(), 0);
    assert_eq!(f.denominator, 1);
}

#[test]
fn forecast_restarts_at_index_zero() {
    let c = LinearCoefficients { slope_numerator: -4, intercept_numerator: 9, denominator: 3 };
    let f = LinearRegression::forecast(&c, 4);
    assert_eq!(f.values, vec![9, 5, 1, -3]);
    assert_eq!(f.denominator, 3);
}

#[test]
fn forecast_with_extreme_coefficients_does_not_overflow() {
    let c = LinearCoefficients {
        slope_numerator: i64::MIN,
        intercept_numerator: i64::MIN,
        denominator: 1,
    };
    let f = LinearRegression::forecast(&c, 3);
    assert_eq!(f.values[2], 3 * (i64::MIN as i128));
}

#[test]
fn r_squared_of_self_prediction_is_one() {
    let actual = [4, -2, 9, 0, 7];
    let r = LinearRegression::calculate_r_squared(&actual, &whole(&[4, -2, 9, 0, 7]));
    assert!(r.denominator > 0);
    assert_eq!(r.numerator, r.denominator);
}

#[test]
fn r_squared_of_shifted_prediction_is_exact() {
    // spread = 5 * 55 - 225 = 50, residual squares = 5, n = 5.
    let r = LinearRegression::calculate_r_squared(&[1, 2, 3, 4, 5], &whole(&[2, 3, 4, 5, 6]));
    assert_eq!((r.numerator, r.denominator), (25, 50));
}

#[test]
fn r_squared_may_be_negative() {
    // spread = 2 * 1 - 1 = 1, residual squares = 100 + 81 = 181.
    let r = LinearRegression::calculate_r_squared(&[0, 1], &whole(&[10, 10]));
    assert_eq!((r.numerator, r.denominator), (1 - 2 * 181, 1));
}

#[test]
fn r_squared_of_constant_actual_is_one_by_definition() {
    let r = LinearRegression::calculate_r_squared(&[7, 7, 7], &whole(&[1, 2, 3]));
    assert_eq!((r.numerator, r.denominator), (1, 1));
}

#[test]
fn r_squared_of_empty_series_is_one() {
    let r = LinearRegression::calculate_r_squared(&[], &whole(&[]));
    assert_eq!((r.numerator, r.denominator), (1, 1));
}

#[test]
fn r_squared_with_fractional_predictions() {
    // Predictions 1/2, 3/2, 5/2 against 0, 2, 2: residuals (times 2) are
    // -1, 1, -1; spread = 3 * 8 - 16 = 8.
    let predicted = ScaledSeries { values: vec![1, 3, 5], denominator: 2 };
    let r = LinearRegression::calculate_r_squared(&[0, 2, 2], &predicted);
    assert_eq!((r.numerator, r.denominator), (8 * 4 - 3 * 3, 8 * 4));
}

#[test]
fn mse_is_the_mean_of_squared_differences() {
    let m = LinearRegression::calculate_mse(&[1, 2, 3], &whole(&[2, 3, 4]));
    assert_eq!((m.numerator, m.denominator), (3, 3));
    let m = LinearRegression::calculate_mse(&[1, 2, 3, 4], &whole(&[1, 0, 3, 7]));
    assert_eq!((m.numerator, m.denominator), (13, 4));
}

#[test]
fn mse_with_fractional_predictions() {
    let predicted = ScaledSeries { values: vec![1, 3, 5], denominator: 2 };
    let m = LinearRegression::calculate_mse(&[0, 2, 2], &predicted);
    assert_eq!((m.numerator, m.denominator), (3, 3 * 4));
}

#[test]
fn mse_of_self_prediction_is_zero() {
    let m = LinearRegression::calculate_mse(&[4, -2, 9], &whole(&[4, -2, 9]));
    assert_eq!(m.numerator, 0);
    assert!(m.denominator > 0);
}

#[test]
fn evaluation_at_the_limits_does_not_overflow() {
    let actual: Vec<i32> =
        (0..256).map(|i| if i % 2 == 0 { 1_000_000 } else { -1_000_000 }).collect();
    let values: Vec<i128> =
        (0..256).map(|i| if i % 2 == 0 { -(1i128 << 54) } else { 1i128 << 54 }).collect();
    let predicted = ScaledSeries { values, denominator: 1i64 << 32 };
    let bound: i128 = 1_000_000 * (1i128 << 32) + (1i128 << 54);
    let m = LinearRegression::calculate_mse(&actual, &predicted);
    assert_eq!(m.numerator, 256 * bound * bound);
    assert_eq!(m.denominator, 256 * (1i128 << 64));
    let r = LinearRegression::calculate_r_squared(&actual, &predicted);
    let spread: i128 = 256 * 256 * 1_000_000_000_000;
    assert_eq!(r.denominator, spread * (1i128 << 64));
    assert_eq!(r.numerator, spread * (1i128 << 64) - 256 * 256 * bound * bound);
}

#[test]
fn error_messages() {
    assert_eq!(LinearRegressionError::EmptyData.message(), "Dados vazios fornecidos");
    assert_eq!(
        LinearRegressionError::InsufficientData.message(),
        "Dados insuficientes para análise"
    );
    assert_eq!(LinearRegressionError::InvalidInput.message(), "Entrada inválida");
}
