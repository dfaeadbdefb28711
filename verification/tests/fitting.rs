use mlnote_rs::error::FitError;
use mlnote_rs::rational::Rat;
use mlnote_rs::regression::{set_degree, slope_and_intercept, Polynomial};

/// Whether the rational `a` equals `num / den`.
fn is_ratio(a: Rat, num: i64, den: i64) -> bool {
    (a.num as i128) * (den as i128) == (num as i128) * (a.den as i128)
}

/// Whether two rationals stand for the same number.
fn same_ratio(a: Rat, b: Rat) -> bool {
    (a.num as i128) * (b.den as i128) == (b.num as i128) * (a.den as i128)
}

fn rat(num: i64, den: i64) -> Rat {
    Rat::new(num, den).expect("a plain ratio")
}

fn pairs(raw: &[(i64, i64)]) -> Vec<(Rat, Rat)> {
    raw.iter().map(|&(x, y)| (Rat::from_int(x), Rat::from_int(y))).collect()
}

#[test]
fn expand_zero() {
    let v = set_degree(Rat::from_int(0), 3).expect("expansion of zero");
    assert_eq!(v.len(), 3);
    for p in &v {
        assert!(is_ratio(*p, 0, 1));
    }
}

#[test]
fn expand_one() {
    let v = set_degree(Rat::from_int(1), 4).expect("expansion of one");
    assert_eq!(v.len(), 4);
    for p in &v {
        assert!(is_ratio(*p, 1, 1));
    }
}

#[test]
fn expand_negative() {
    let v = set_degree(Rat::from_int(-2), 3).expect("expansion of a negative");
    assert!(is_ratio(v[0], -2, 1));
    assert!(is_ratio(v[1], 4, 1));
    assert!(is_ratio(v[2], -8, 1));
}

#[test]
fn expand_fractional() {
    let v = set_degree(rat(1, 2), 3).expect("expansion of a fraction");
    assert!(is_ratio(v[0], 1, 2));
    assert!(is_ratio(v[1], 1, 4));
    assert!(is_ratio(v[2], 1, 8));
}

#[test]
fn expand_rejects_degree_zero() {
    assert!(matches!(set_degree(Rat::from_int(7), 0), Err(FitError::InvalidDegree)));
}

#[test]
fn expand_reports_overflow() {
    let r = set_degree(Rat::from_int(i64::MAX), 2);
    assert!(matches!(r, Err(FitError::NumericOverflow)));
}

#[test]
fn simple_fit_known_line() {
    // The four-point demonstration dataset: slope 25/58, intercept 96/29.
    let data = pairs(&[(1, 3), (3, 6), (6, 5), (8, 7)]);
    let (slope, intercept) = slope_and_intercept(&data).expect("a fit");
    assert!(is_ratio(slope, 25, 58));
    assert!(is_ratio(intercept, 96, 29));
}

#[test]
fn simple_fit_empty_dataset() {
    let data: Vec<(Rat, Rat)> = Vec::new();
    assert!(matches!(slope_and_intercept(&data), Err(FitError::InsufficientData)));
}

#[test]
fn simple_fit_constant_x() {
    let data = pairs(&[(2, 1), (2, 5), (2, 9)]);
    assert!(matches!(slope_and_intercept(&data), Err(FitError::DegenerateInput)));
}

#[test]
fn simple_fit_agrees_with_solver_at_degree_one() {
    let raw = [(1i64, 3i64), (3, 6), (6, 5), (8, 7)];
    let data = pairs(&raw);
    let (slope, intercept) = slope_and_intercept(&data).expect("closed form");
    let xs: Vec<Rat> = raw.iter().map(|&(x, _)| Rat::from_int(x)).collect();
    let ys: Vec<Rat> = raw.iter().map(|&(_, y)| Rat::from_int(y)).collect();
    let model = Polynomial::polyfit(&xs, &ys, 1).expect("solver fit");
    assert_eq!(model.degree, 1);
    assert!(same_ratio(model.coefficients[0], slope));
    assert!(same_ratio(model.intercept, intercept));
}

#[test]
fn simple_fit_agrees_with_solver_on_second_dataset() {
    let raw = [(0i64, 1i64), (2, 2), (3, 7), (5, 4), (9, 11)];
    let data = pairs(&raw);
    let (slope, intercept) = slope_and_intercept(&data).expect("closed form");
    let xs: Vec<Rat> = raw.iter().map(|&(x, _)| Rat::from_int(x)).collect();
    let ys: Vec<Rat> = raw.iter().map(|&(_, y)| Rat::from_int(y)).collect();
    let model = Polynomial::polyfit(&xs, &ys, 1).expect("solver fit");
    assert!(same_ratio(model.coefficients[0], slope));
    assert!(same_ratio(model.intercept, intercept));
}

#[test]
fn polyfit_recovers_exact_quadratic() {
    // Points on y = 2 + 3x - x^2, fitted at the matching degree.
    let xs: Vec<Rat> = [0i64, 1, 2, 3].iter().map(|&x| Rat::from_int(x)).collect();
    let ys: Vec<Rat> = [2i64, 4, 4, 2].iter().map(|&y| Rat::from_int(y)).collect();
    let model = Polynomial::polyfit(&xs, &ys, 2).expect("quadratic fit");
    assert_eq!(model.degree, 2);
    assert!(is_ratio(model.intercept, 2, 1));
    assert!(is_ratio(model.coefficients[0], 3, 1));
    assert!(is_ratio(model.coefficients[1], -1, 1));
}

#[test]
fn polyfit_recovers_exact_line() {
    let xs: Vec<Rat> = [1i64, 2, 5].iter().map(|&x| Rat::from_int(x)).collect();
    let ys: Vec<Rat> = [7i64, 9, 15].iter().map(|&y| Rat::from_int(y)).collect();
    let model = Polynomial::polyfit(&xs, &ys, 1).expect("linear fit");
    assert!(is_ratio(model.coefficients[0], 2, 1));
    assert!(is_ratio(model.intercept, 5, 1));
}

#[test]
fn polyfit_rejects_degree_zero() {
    let xs = vec![Rat::from_int(1), Rat::from_int(2)];
    let ys = vec![Rat::from_int(1), Rat::from_int(2)];
    assert!(matches!(Polynomial::polyfit(&xs, &ys, 0), Err(FitError::InvalidDegree)));
}

#[test]
fn polyfit_rejects_too_few_points() {
    let xs = vec![Rat::from_int(1), Rat::from_int(2)];
    let ys = vec![Rat::from_int(1), Rat::from_int(2)];
    assert!(matches!(Polynomial::polyfit(&xs, &ys, 2), Err(FitError::InsufficientData)));
}

#[test]
fn polyfit_rejects_mismatched_columns() {
    let xs = vec![Rat::from_int(1), Rat::from_int(2), Rat::from_int(3)];
    let ys = vec![Rat::from_int(1), Rat::from_int(2)];
    assert!(matches!(Polynomial::polyfit(&xs, &ys, 1), Err(FitError::InsufficientData)));
}

#[test]
fn polyfit_rejects_duplicate_x_values() {
    // Three points but a single distinct x: the design matrix is singular.
    let xs = vec![Rat::from_int(5), Rat::from_int(5), Rat::from_int(5)];
    let ys = vec![Rat::from_int(1), Rat::from_int(2), Rat::from_int(3)];
    assert!(matches!(Polynomial::polyfit(&xs, &ys, 1), Err(FitError::SingularSystem)));
}

#[test]
fn polyfit_rejects_two_distinct_x_at_degree_two() {
    let xs = vec![Rat::from_int(1), Rat::from_int(2), Rat::from_int(1), Rat::from_int(2)];
    let ys = vec![Rat::from_int(1), Rat::from_int(2), Rat::from_int(3), Rat::from_int(4)];
    assert!(matches!(Polynomial::polyfit(&xs, &ys, 2), Err(FitError::SingularSystem)));
}

#[test]
fn model_new_validates_parts() {
    assert!(matches!(
        Polynomial::new(vec![Rat::from_int(1)], Rat::from_int(0), 0),
        Err(FitError::InvalidDegree)
    ));
    assert!(matches!(
        Polynomial::new(vec![Rat::from_int(1)], Rat::from_int(0), 2),
        Err(FitError::InsufficientData)
    ));
    let m = Polynomial::new(vec![Rat::from_int(1)], Rat::from_int(0), 1).expect("a line");
    assert_eq!(m.degree, 1);
}

#[test]
fn polyval_line_over_inclusive_range() {
    // The end-to-end demonstration: fit the four points, then sample the
    // line at the integers 0 through 10.
    let data = pairs(&[(1, 3), (3, 6), (6, 5), (8, 7)]);
    let (slope, intercept) = slope_and_intercept(&data).expect("a fit");
    let model =
        Polynomial::new(vec![slope], intercept, 1).expect("a degree-one model");
    let series = model.polyval(0, 10).expect("eleven samples");
    assert_eq!(series.len(), 11);
    for (k, (x, y)) in series.iter().enumerate() {
        assert!(is_ratio(*x, k as i64, 1));
        // y == slope * x + intercept, compared exactly by cross
        // multiplication: y * (58 * 1) == (25 * x + 192) * y.den with
        // slope 25/58 and intercept 96/29 = 192/58.
        let expect_num = 25 * (k as i128) + 192;
        assert_eq!((y.num as i128) * 58, expect_num * (y.den as i128));
    }
}

#[test]
fn polyval_empty_when_range_reversed() {
    let model = Polynomial::new(vec![Rat::from_int(1)], Rat::from_int(0), 1).expect("a line");
    let series = model.polyval(5, 4).expect("an empty series");
    assert!(series.is_empty());
}

#[test]
fn polyval_quadratic_values() {
    let xs: Vec<Rat> = [0i64, 1, 2, 3].iter().map(|&x| Rat::from_int(x)).collect();
    let ys: Vec<Rat> = [2i64, 4, 4, 2].iter().map(|&y| Rat::from_int(y)).collect();
    let model = Polynomial::polyfit(&xs, &ys, 2).expect("quadratic fit");
    let series = model.polyval(-2, 5).expect("eight samples");
    assert_eq!(series.len(), 8);
    for (x, y) in &series {
        // y == 2 + 3x - x^2 exactly.
        let xv = x.num / x.den;
        let expect = 2 + 3 * (xv as i128) - (xv as i128) * (xv as i128);
        assert_eq!((y.num as i128), expect * (y.den as i128));
    }
}

#[test]
fn polyval_is_idempotent() {
    let xs: Vec<Rat> = [0i64, 1, 2, 3].iter().map(|&x| Rat::from_int(x)).collect();
    let ys: Vec<Rat> = [2i64, 4, 4, 2].iter().map(|&y| Rat::from_int(y)).collect();
    let model = Polynomial::polyfit(&xs, &ys, 2).expect("quadratic fit");
    let first = model.polyval(0, 12).expect("first pass");
    let second = model.polyval(0, 12).expect("second pass");
    assert_eq!(first, second);
}

#[test]
fn simple_fit_fractional_data() {
    // x deviations -1, 0, 1 around 3/2: slope 3/2, intercept 1/12.
    let data = vec![
        (rat(1, 2), Rat::from_int(1)),
        (rat(3, 2), Rat::from_int(2)),
        (rat(5, 2), Rat::from_int(4)),
    ];
    let (slope, intercept) = slope_and_intercept(&data).expect("a fit");
    assert!(is_ratio(slope, 3, 2));
    assert!(is_ratio(intercept, 1, 12));
}

#[test]
fn polyfit_exact_fit_with_fractional_samples() {
    // Points on y = 1/2 + (3/2)x, one of them at a fractional x.
    let xs = vec![rat(1, 2), Rat::from_int(1), Rat::from_int(2)];
    let ys = vec![rat(5, 4), Rat::from_int(2), rat(7, 2)];
    let model = Polynomial::polyfit(&xs, &ys, 1).expect("linear fit");
    assert!(is_ratio(model.coefficients[0], 3, 2));
    assert!(is_ratio(model.intercept, 1, 2));
}

#[test]
fn polyfit_recovers_exact_cubic() {
    let xs: Vec<Rat> = [0i64, 1, 2, 3, 4].iter().map(|&x| Rat::from_int(x)).collect();
    let ys: Vec<Rat> = [0i64, 1, 8, 27, 64].iter().map(|&y| Rat::from_int(y)).collect();
    let model = Polynomial::polyfit(&xs, &ys, 3).expect("cubic fit");
    assert!(is_ratio(model.intercept, 0, 1));
    assert!(is_ratio(model.coefficients[0], 0, 1));
    assert!(is_ratio(model.coefficients[1], 0, 1));
    assert!(is_ratio(model.coefficients[2], 1, 1));
}

#[test]
fn polyval_single_point_range() {
    let model = Polynomial::new(vec![Rat::from_int(2)], Rat::from_int(1), 1).expect("a line");
    let series = model.polyval(3, 3).expect("one sample");
    assert_eq!(series.len(), 1);
    assert!(is_ratio(series[0].0, 3, 1));
    assert!(is_ratio(series[0].1, 7, 1));
}

#[test]
fn legend_of_fitted_model() {
    // The solver returns canonical lowest-terms values, so the rendered
    // legend of an exact quadratic fit is fully determined.
    let xs: Vec<Rat> = [0i64, 1, 2, 3].iter().map(|&x| Rat::from_int(x)).collect();
    let ys: Vec<Rat> = [2i64, 4, 4, 2].iter().map(|&y| Rat::from_int(y)).collect();
    let model = Polynomial::polyfit(&xs, &ys, 2).expect("quadratic fit");
    assert_eq!(model.format_legend(), "2 + 3x^1 - 1x^2");
}

#[test]
fn polyfit_is_deterministic() {
    let xs: Vec<Rat> = [0i64, 1, 2, 3].iter().map(|&x| Rat::from_int(x)).collect();
    let ys: Vec<Rat> = [2i64, 4, 4, 2].iter().map(|&y| Rat::from_int(y)).collect();
    let first = Polynomial::polyfit(&xs, &ys, 2).expect("first fit");
    let second = Polynomial::polyfit(&xs, &ys, 2).expect("second fit");
    assert_eq!(first.degree, second.degree);
    assert_eq!(first.intercept, second.intercept);
    assert_eq!(first.coefficients, second.coefficients);
}

#[test]
fn simple_fit_degenerate_decided_before_arithmetic() {
    // One x value repeated at the top of the numerator range: the
    // identical-x scan reports the degenerate shape before any sum could
    // overflow.
    let data = vec![
        (Rat::from_int(i64::MAX), Rat::from_int(1)),
        (Rat::from_int(i64::MAX), Rat::from_int(2)),
    ];
    assert!(matches!(slope_and_intercept(&data), Err(FitError::DegenerateInput)));
}

#[test]
fn simple_fit_reports_overflow_on_huge_distinct_x() {
    let data = vec![
        (Rat::from_int(i64::MAX - 1), Rat::from_int(0)),
        (Rat::from_int(i64::MAX), Rat::from_int(1)),
    ];
    assert!(matches!(slope_and_intercept(&data), Err(FitError::NumericOverflow)));
}

#[test]
fn polyfit_accepts_repeated_x_with_enough_distinct() {
    // Duplicates are fine as long as more than `degree` distinct x values
    // remain; these points lie on y = 2x + 1.
    let xs: Vec<Rat> = [1i64, 1, 2, 3].iter().map(|&x| Rat::from_int(x)).collect();
    let ys: Vec<Rat> = [3i64, 3, 5, 7].iter().map(|&y| Rat::from_int(y)).collect();
    let model = Polynomial::polyfit(&xs, &ys, 1).expect("linear fit");
    assert!(is_ratio(model.coefficients[0], 2, 1));
    assert!(is_ratio(model.intercept, 1, 1));
}
