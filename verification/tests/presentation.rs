use mlnote_rs::config::{config_icecream, config_simple};
use mlnote_rs::rational::Rat;
use mlnote_rs::regression::Polynomial;

fn rat(num: i64, den: i64) -> Rat {
    Rat::new(num, den).expect("a plain ratio")
}

#[test]
fn rational_new_normalizes_sign() {
    let r = rat(3, -4);
    assert_eq!(r.num, -3);
    assert_eq!(r.den, 4);
    assert!(Rat::new(1, 0).is_none());
}

#[test]
fn rational_addition_is_exact() {
    let r = rat(1, 3).checked_add(rat(1, 6)).expect("a small sum");
    assert_eq!(r.num, 1);
    assert_eq!(r.den, 2);
}

#[test]
fn rational_subtraction_is_exact() {
    let r = rat(1, 2).checked_sub(rat(3, 4)).expect("a small difference");
    assert_eq!(r.num, -1);
    assert_eq!(r.den, 4);
}

#[test]
fn rational_multiplication_is_exact() {
    let r = rat(-2, 3).checked_mul(rat(5, 7)).expect("a small product");
    assert_eq!(r.num, -10);
    assert_eq!(r.den, 21);
}

#[test]
fn rational_division_moves_sign_up() {
    let r = rat(1, 2).checked_div(rat(-3, 5)).expect("a small quotient");
    assert_eq!(r.num, -5);
    assert_eq!(r.den, 6);
    assert!(rat(1, 2).checked_div(Rat::from_int(0)).is_none());
}

#[test]
fn rational_addition_reports_overflow() {
    assert!(Rat::from_int(i64::MAX).checked_add(Rat::from_int(1)).is_none());
}

#[test]
fn legend_signs_and_order() {
    // intercept 5, coefficients -3 and 2: the fixed sign-and-order form.
    let model = Polynomial::new(
        vec![Rat::from_int(-3), Rat::from_int(2)],
        Rat::from_int(5),
        2,
    )
    .expect("a quadratic model");
    assert_eq!(model.format_legend(), "5 - 3x^1 + 2x^2");
}

#[test]
fn legend_negative_intercept_prints_as_is() {
    let model = Polynomial::new(vec![Rat::from_int(3)], Rat::from_int(-5), 1)
        .expect("a line");
    assert_eq!(model.format_legend(), "-5 + 3x^1");
}

#[test]
fn legend_fractional_values() {
    let model = Polynomial::new(vec![rat(-1, 2)], rat(7, 4), 1).expect("a line");
    assert_eq!(model.format_legend(), "7/4 - 1/2x^1");
}

#[test]
fn legend_zero_coefficient_keeps_plus() {
    let model = Polynomial::new(
        vec![Rat::from_int(0), Rat::from_int(1)],
        Rat::from_int(0),
        2,
    )
    .expect("a quadratic model");
    assert_eq!(model.format_legend(), "0 + 0x^1 + 1x^2");
}

#[test]
fn config_simple_holds_demonstration_plot() {
    let c = config_simple();
    assert_eq!(c.data().len(), 4);
    assert_eq!(c.data()[0], (Rat::from_int(1), Rat::from_int(3)));
    assert_eq!(c.data()[3], (Rat::from_int(8), Rat::from_int(7)));
    assert_eq!(c.x_range, (Rat::from_int(0), Rat::from_int(10)));
    assert_eq!(c.y_range, (Rat::from_int(0), Rat::from_int(10)));
    assert_eq!(c.caption, "");
    assert_eq!(c.x_desc, "x");
    assert_eq!(c.y_desc, "y");
    assert!(c.with_coord);
}

#[test]
fn config_icecream_keeps_given_dataset() {
    let data = vec![(rat(91, 10), Rat::from_int(463)), (rat(112, 10), Rat::from_int(360))];
    let c = config_icecream(data.clone());
    assert_eq!(c.data(), &data);
    assert_eq!(c.x_range, (Rat::from_int(0), Rat::from_int(35)));
    assert_eq!(c.y_range, (Rat::from_int(-250), Rat::from_int(2000)));
    assert_eq!(c.caption, "Highest temperatures and ice cream/sorbet spending");
    assert_eq!(c.x_desc, "Monthly avg of max temperature (Celsius)");
    assert_eq!(c.y_desc, "Spending (Yen)");
    assert!(!c.with_coord);
}
