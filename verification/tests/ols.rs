use ols::estimator::OlsError;
use ols::estimator::OLS;
use ols::matrix::Matrix;
use ols::rational::Rat;

fn r(n: i64) -> Rat {
    Rat::from_int(n)
}

fn mat(rows: Vec<Vec<i64>>, cols: usize) -> Matrix {
    let data: Vec<Vec<Rat>> = rows
        .into_iter()
        .map(|row| row.into_iter().map(r).collect())
        .collect();
    Matrix::from_rows(data, cols).unwrap()
}

fn vecr(vals: Vec<i64>) -> Vec<Rat> {
    vals.into_iter().map(r).collect()
}

#[test]
fn exact_line_fit_and_predict() {
    // y = 1 + 1*x, with the constant term encoded as the first column.
    let mut est = OLS::new(2);
    let x = mat(vec![vec![1, 1], vec![1, 2], vec![1, 3]], 2);
    let y = vecr(vec![2, 3, 4]);
    est.fit(&x, &y).unwrap();
    assert!(est.is_fitted());
    let w = est.get_weights();
    assert_eq!(w.len(), 2);
    assert!(w[0].equiv(r(1)));
    assert!(w[1].equiv(r(1)));
    let q = mat(vec![vec![1, 4]], 2);
    let pred = est.predict(&q).unwrap();
    assert_eq!(pred.len(), 1);
    assert!(pred[0].equiv(r(5)));
}

#[test]
fn predict_reproduces_training_targets() {
    // With an exactly solvable system, X·w gives back y itself.
    let mut est = OLS::new(2);
    let x = mat(vec![vec![1, 1], vec![1, 2], vec![1, 3]], 2);
    let y = vecr(vec![2, 3, 4]);
    est.fit(&x, &y).unwrap();
    let pred = est.predict(&x).unwrap();
    assert_eq!(pred.len(), 3);
    for (p, t) in pred.iter().zip(y.iter()) {
        assert!(p.equiv(*t));
    }
}

#[test]
fn fit_twice_gives_identical_weights() {
    let x = mat(vec![vec![1, 1], vec![1, 2], vec![1, 3]], 2);
    let y = vecr(vec![2, 3, 4]);
    let mut once = OLS::new(2);
    once.fit(&x, &y).unwrap();
    let mut twice = OLS::new(2);
    twice.fit(&x, &y).unwrap();
    twice.fit(&x, &y).unwrap();
    let w1 = once.get_weights();
    let w2 = twice.get_weights();
    assert_eq!(w1.len(), w2.len());
    for (a, b) in w1.iter().zip(w2.iter()) {
        // Bitwise identical, not merely equivalent fractions.
        assert_eq!(a.num, b.num);
        assert_eq!(a.den, b.den);
    }
}

#[test]
fn dimension_mismatch_leaves_state_untouched() {
    let mut est = OLS::new(2);
    let x = mat(vec![vec![1, 1], vec![1, 2]], 2);
    let y = vecr(vec![1, 2, 3]);
    let e = est.fit(&x, &y).unwrap_err();
    assert_eq!(e, OlsError::DimensionMismatch { x_rows: 2, y_len: 3 });
    assert!(!est.is_fitted());
    let w = est.get_weights();
    assert_eq!(w.len(), 2);
    assert!(w[0].is_zero());
    assert!(w[1].is_zero());
}

#[test]
fn collinear_rows_are_singular() {
    // Second row is exactly twice the first.
    let mut est = OLS::new(2);
    let x = mat(vec![vec![1, 2], vec![2, 4]], 2);
    let y = vecr(vec![1, 2]);
    let e = est.fit(&x, &y).unwrap_err();
    assert_eq!(e, OlsError::SingularMatrix);
    assert!(!est.is_fitted());
}

#[test]
fn collinear_columns_are_singular() {
    // Second column is exactly twice the first.
    let mut est = OLS::new(2);
    let x = mat(vec![vec![1, 2], vec![2, 4], vec![3, 6]], 2);
    let y = vecr(vec![1, 2, 3]);
    let e = est.fit(&x, &y).unwrap_err();
    assert_eq!(e, OlsError::SingularMatrix);
}

#[test]
fn predict_before_fit_is_not_fitted() {
    // The fitted check comes before the dimension check: three columns
    // against two expected features still reports NotFitted.
    let est = OLS::new(2);
    let x = mat(vec![vec![1, 2, 3]], 3);
    let e = est.predict(&x).unwrap_err();
    assert_eq!(e, OlsError::NotFitted);
}

#[test]
fn predict_with_wrong_column_count() {
    let mut est = OLS::new(2);
    let x = mat(vec![vec![1, 1], vec![1, 2], vec![1, 3]], 2);
    let y = vecr(vec![2, 3, 4]);
    est.fit(&x, &y).unwrap();
    let q = mat(vec![vec![1, 2, 3]], 3);
    let e = est.predict(&q).unwrap_err();
    assert_eq!(e, OlsError::FeatureDimensionMismatch { x_cols: 3, expected: 2 });
}

#[test]
fn oversized_values_report_overflow() {
    // 4e9 squared exceeds i64, so assembling the Gram matrix overflows.
    let mut est = OLS::new(1);
    let x = mat(vec![vec![4_000_000_000]], 1);
    let y = vecr(vec![4_000_000_000]);
    let e = est.fit(&x, &y).unwrap_err();
    assert_eq!(e, OlsError::NumericOverflow);
    assert!(!est.is_fitted());
}

#[test]
fn failed_fit_keeps_previous_model() {
    let mut est = OLS::new(2);
    let good_x = mat(vec![vec![1, 1], vec![1, 2], vec![1, 3]], 2);
    let good_y = vecr(vec![2, 3, 4]);
    est.fit(&good_x, &good_y).unwrap();
    let bad_x = mat(vec![vec![1, 2], vec![2, 4]], 2);
    let bad_y = vecr(vec![1, 2]);
    let e = est.fit(&bad_x, &bad_y).unwrap_err();
    assert_eq!(e, OlsError::SingularMatrix);
    assert!(est.is_fitted());
    let w = est.get_weights();
    assert!(w[0].equiv(r(1)));
    assert!(w[1].equiv(r(1)));
}

#[test]
fn fractional_weights_are_exact() {
    // 2*w = 1 has the exact solution w = 1/2.
    let mut est = OLS::new(1);
    let x = mat(vec![vec![2]], 1);
    let y = vecr(vec![1]);
    est.fit(&x, &y).unwrap();
    let half = Rat::new(1, 2).unwrap();
    assert!(est.get_weights()[0].equiv(half));
}

#[test]
fn fresh_estimator_state() {
    let est = OLS::new(3);
    assert!(!est.is_fitted());
    assert!(est.get_bias().is_zero());
    let w = est.get_weights();
    assert_eq!(w.len(), 3);
    for v in w.iter() {
        assert!(v.is_zero());
    }
}

#[test]
fn bias_stays_zero_after_fit() {
    let mut est = OLS::new(1);
    let x = mat(vec![vec![1], vec![2]], 1);
    let y = vecr(vec![1, 2]);
    est.fit(&x, &y).unwrap();
    assert!(est.get_bias().is_zero());
}

#[test]
fn rat_constructor_normalizes_sign() {
    let v = Rat::new(1, -2).unwrap();
    assert_eq!(v.num, -1);
    assert_eq!(v.den, 2);
    assert!(Rat::new(1, 0).is_none());
    assert!(Rat::new(2, 4).unwrap().equiv(Rat::new(1, 2).unwrap()));
    assert!(!Rat::new(2, 4).unwrap().equiv(Rat::new(1, 3).unwrap()));
}

#[test]
fn fractional_data_fits_after_reduction() {
    // Half-integer values across three rows: y = 1 + x on the half grid.
    let half = |n: i64| Rat::new(n, 2).unwrap();
    let x = Matrix::from_rows(
        vec![
            vec![Rat::from_int(1), half(1)],
            vec![Rat::from_int(1), half(2)],
            vec![Rat::from_int(1), half(3)],
        ],
        2,
    )
    .unwrap();
    let y = vec![half(3), half(4), half(5)];
    let mut est = OLS::new(2);
    est.fit(&x, &y).unwrap();
    assert!(est.get_weights()[0].equiv(Rat::from_int(1)));
    assert!(est.get_weights()[1].equiv(Rat::from_int(1)));
    let q = Matrix::from_rows(vec![vec![Rat::from_int(1), half(7)]], 2).unwrap();
    let pred = est.predict(&q).unwrap();
    assert!(pred[0].equiv(half(9)));
}

#[test]
fn unreduced_inputs_are_reduced() {
    // What a float boundary makes of 1.0: the constructor reduces it to
    // 1/1, and a two-observation fit goes through.
    let one = Rat::new(1_000_000, 1_000_000).unwrap();
    assert_eq!(one.num, 1);
    assert_eq!(one.den, 1);
    let x = Matrix::from_rows(vec![vec![one], vec![one]], 1).unwrap();
    let y = vec![one, one];
    let mut est = OLS::new(1);
    est.fit(&x, &y).unwrap();
    assert!(est.is_fitted());
    assert!(est.get_weights()[0].equiv(Rat::from_int(1)));
}

#[test]
fn ragged_rows_are_rejected() {
    let data = vec![vec![r(1)], vec![r(1), r(2)]];
    assert!(Matrix::from_rows(data, 2).is_none());
    let square = vec![vec![r(1), r(2)], vec![r(3), r(4)]];
    assert!(Matrix::from_rows(square, 2).is_some());
}
