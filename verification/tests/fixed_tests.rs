use gaussian_process::fixed::{SCALE, LN2, fx_add, fx_sub, fx_neg, fx_mul, fx_div, fx_sqrt,
    fx_exp_neg, fx_ln, sdiff};

fn to_fx(v: f64) -> i64 {
    (v * SCALE as f64).round() as i64
}

fn from_fx(u: i64) -> f64 {
    u as f64 / SCALE as f64
}

#[test]
fn add_and_sub_are_exact_in_range() {
    assert_eq!(fx_add(SCALE, SCALE), 2 * SCALE);
    assert_eq!(fx_sub(SCALE, 3 * SCALE), -2 * SCALE);
    assert_eq!(fx_neg(5), -5);
}

#[test]
fn add_saturates_at_the_range_ends() {
    assert_eq!(fx_add(i64::MAX, 1), i64::MAX);
    assert_eq!(fx_add(i64::MIN, -1), i64::MIN);
    assert_eq!(fx_sub(i64::MIN, 1), i64::MIN);
    assert_eq!(fx_neg(i64::MIN), i64::MAX);
}

#[test]
fn mul_scales_back_down() {
    assert_eq!(fx_mul(2 * SCALE, 3 * SCALE), 6 * SCALE);
    assert_eq!(fx_mul(SCALE / 2, SCALE / 2), SCALE / 4);
    assert_eq!(fx_mul(-2 * SCALE, 3 * SCALE), -6 * SCALE);
}

#[test]
fn div_by_zero_saturates_by_sign() {
    assert_eq!(fx_div(SCALE, 0), i64::MAX);
    assert_eq!(fx_div(-SCALE, 0), i64::MIN);
    assert_eq!(fx_div(0, 0), 0);
    assert_eq!(fx_div(6 * SCALE, 3 * SCALE), 2 * SCALE);
}

#[test]
fn sdiff_negates_on_swap() {
    assert_eq!(sdiff(7, 3), 4);
    assert_eq!(sdiff(3, 7), -4);
    assert_eq!(sdiff(i64::MIN, 1), -i64::MAX);
    assert_eq!(sdiff(1, i64::MIN), i64::MAX);
}

#[test]
fn sqrt_of_perfect_squares_is_exact() {
    assert_eq!(fx_sqrt(4 * SCALE), 2 * SCALE);
    assert_eq!(fx_sqrt(0), 0);
    assert_eq!(fx_sqrt(SCALE), SCALE);
}

#[test]
fn exp_of_zero_is_one() {
    assert_eq!(fx_exp_neg(0), SCALE);
}

#[test]
fn exp_of_minus_one_matches_reference() {
    let e = from_fx(fx_exp_neg(SCALE));
    assert!((e - (-1.0f64).exp()).abs() < 1e-6);
}

#[test]
fn ln_of_one_is_zero_and_ln_of_two_is_ln2() {
    assert_eq!(fx_ln(SCALE), 0);
    assert_eq!(fx_ln(2 * SCALE), LN2);
    let l = from_fx(fx_ln(to_fx(10.0)));
    assert!((l - 10.0f64.ln()).abs() < 1e-6);
}
