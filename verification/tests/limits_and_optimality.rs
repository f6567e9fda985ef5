use timewise_analytics::{
    LinearCoefficients, LinearRegression, LinearRegressionError, ScaledSeries,
};

fn residual_squares(series: &[i32], line: &LinearCoefficients) -> i128 {
    series
        .iter()
        .enumerate()
        .map(|(i, y)| {
            let r = (*y as i128) * (line.denominator as i128)
                - ((line.slope_numerator as i128) * (i as i128) + line.intercept_numerator as i128);
            r * r
        })
        .sum()
}

#[test]
fn check_length_tells_the_three_cases_apart() {
    assert_eq!(LinearRegression::check_length(0), Err(LinearRegressionError::EmptyData));
    assert_eq!(LinearRegression::check_length(1), Err(LinearRegressionError::InsufficientData));
    assert_eq!(LinearRegression::check_length(2), Ok(()));
    assert_eq!(LinearRegression::check_length(usize::MAX), Ok(()));
}

#[test]
fn time_limits_cover_length_and_magnitude() {
    assert!(LinearRegression::times_are_within_limits(&[]));
    assert!(LinearRegression::times_are_within_limits(&[-256, 0, 256]));
    assert!(!LinearRegression::times_are_within_limits(&[257]));
    assert!(!LinearRegression::times_are_within_limits(&[0, -257]));
    assert!(LinearRegression::times_are_within_limits(&vec![1; 256]));
    assert!(!LinearRegression::times_are_within_limits(&vec![1; 257]));
}

#[test]
fn scaled_series_limits_cover_denominator_length_and_magnitude() {
    let limit: i128 = 1 << 54;
    assert!(ScaledSeries { values: vec![], denominator: 1 }.is_within_limits());
    assert!(ScaledSeries { values: vec![limit, -limit], denominator: 1 << 32 }.is_within_limits());
    assert!(!ScaledSeries { values: vec![limit + 1], denominator: 1 }.is_within_limits());
    assert!(!ScaledSeries { values: vec![-limit - 1], denominator: 1 }.is_within_limits());
    assert!(!ScaledSeries { values: vec![0], denominator: 0 }.is_within_limits());
    assert!(!ScaledSeries { values: vec![0], denominator: -1 }.is_within_limits());
    assert!(!ScaledSeries { values: vec![0], denominator: (1 << 32) + 1 }.is_within_limits());
    assert!(ScaledSeries { values: vec![0; 256], denominator: 1 }.is_within_limits());
    assert!(!ScaledSeries { values: vec![0; 257], denominator: 1 }.is_within_limits());
}

#[test]
fn fitted_predictions_fit_the_evaluator() {
    let series: Vec<i32> =
        (0..256).map(|i| if i < 128 { -1_000_000 } else { 1_000_000 }).collect();
    let result = LinearRegression::fit(&series).unwrap();
    assert!(result.predictions.is_within_limits());
}

#[test]
fn no_nearby_line_beats_the_fit() {
    let series = [100, 120, 130, 145, 160];
    let best = LinearRegression::fit(&series).unwrap().coefficients;
    let least = residual_squares(&series, &best);
    assert_eq!(least, 43_750);
    for ds in -3i64..=3 {
        for di in -3i64..=3 {
            let other = LinearCoefficients {
                slope_numerator: best.slope_numerator + ds,
                intercept_numerator: best.intercept_numerator + di,
                denominator: best.denominator,
            };
            let rss = residual_squares(&series, &other);
            assert!(least <= rss);
            assert!(ds == 0 && di == 0 || least < rss);
        }
    }
}

#[test]
fn no_line_over_another_denominator_beats_the_fit() {
    let series = [3, -1, 4, -1, 5, -9, 2, -6];
    let best = LinearRegression::fit(&series).unwrap().coefficients;
    let least = residual_squares(&series, &best);
    let d2 = (best.denominator as i128) * (best.denominator as i128);
    for slope in -8i64..=8 {
        for intercept in -8i64..=8 {
            let other = LinearCoefficients {
                slope_numerator: slope,
                intercept_numerator: intercept,
                denominator: 3,
            };
            assert!(least * 9 <= residual_squares(&series, &other) * d2);
        }
    }
}

#[test]
fn residuals_of_the_fit_balance() {
    let series = [3, -1, 4, -1, 5, -9, 2, -6];
    let c = LinearRegression::fit(&series).unwrap().coefficients;
    let residuals: Vec<i128> = series
        .iter()
        .enumerate()
        .map(|(i, y)| {
            (*y as i128) * (c.denominator as i128)
                - ((c.slope_numerator as i128) * (i as i128) + c.intercept_numerator as i128)
        })
        .collect();
    assert_eq!(residuals.iter().sum::<i128>(), 0);
    assert_eq!(residuals.iter().enumerate().map(|(i, r)| (i as i128) * r).sum::<i128>(), 0);
}

#[test]
fn fitted_r_squared_lies_between_zero_and_one() {
    let all: [&[i32]; 5] = [
        &[0, 0],
        &[1, -1, 1, -1, 1, -1],
        &[5, 3, 8, 1, 9, 2, 7],
        &[-1_000_000, 1_000_000, -1_000_000],
        &[10, 20, 30, 41],
    ];
    for series in all {
        let r = LinearRegression::fit(series).unwrap().r_squared;
        assert!(r.denominator > 0);
        assert!(0 <= r.numerator && r.numerator <= r.denominator);
    }
}

#[test]
fn mse_of_the_fit_matches_the_evaluator() {
    let series = [5, 3, 8, 1, 9, 2, 7];
    let result = LinearRegression::fit(&series).unwrap();
    let mse = LinearRegression::calculate_mse(&series, &result.predictions);
    let r2 = LinearRegression::calculate_r_squared(&series, &result.predictions);
    assert_eq!((mse.numerator, mse.denominator), (result.mse.numerator, result.mse.denominator));
    assert_eq!(
        (r2.numerator, r2.denominator),
        (result.r_squared.numerator, result.r_squared.denominator)
    );
    let again = LinearRegression::predict_range(&[0, 1, 2, 3, 4, 5, 6], &result.coefficients);
    assert_eq!(again.values, result.predictions.values);
    let ahead = LinearRegression::forecast(&result.coefficients, 7);
    assert_eq!(ahead.values, result.predictions.values);
}
