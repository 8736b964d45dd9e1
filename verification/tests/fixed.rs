use pathtracer::fixed::{fdiv, floor_div, fmul, isqrt, sat, sat_add, sat_neg, sat_sub, EPSILON, PI, SCALE};

#[test]
fn one_is_scale_raw_units() {
    assert_eq!(SCALE, 65536);
    assert_eq!(EPSILON, 1);
    assert_eq!(PI, 205887);
}

#[test]
fn sat_cuts_off_at_both_ends() {
    assert_eq!(sat(i64::MAX as i128 + 1), i64::MAX);
    assert_eq!(sat(i64::MIN as i128 - 1), i64::MIN);
    assert_eq!(sat(-7), -7);
    assert_eq!(sat_add(i64::MAX, 1), i64::MAX);
    assert_eq!(sat_sub(i64::MIN, 1), i64::MIN);
    assert_eq!(sat_neg(i64::MIN), i64::MAX);
    assert_eq!(sat_add(3, 4), 7);
    assert_eq!(sat_sub(3, 4), -1);
}

#[test]
fn floor_div_rounds_towards_minus_infinity() {
    assert_eq!(floor_div(7, 2), 3);
    assert_eq!(floor_div(-7, 2), -4);
    assert_eq!(floor_div(-8, 2), -4);
    assert_eq!(floor_div(0, 5), 0);
    assert_eq!(floor_div(i128::MIN, 1), i128::MIN);
}

#[test]
fn fmul_multiplies_fixed_point_values() {
    // 1.5 * 2.5 = 3.75
    assert_eq!(fmul(98304, 163840), 245760);
    // -0.5 * 0.5 = -0.25
    assert_eq!(fmul(-32768, 32768), -16384);
    // the smallest value times a half rounds down
    assert_eq!(fmul(1, 32768), 0);
    assert_eq!(fmul(-1, 32768), -1);
    assert_eq!(fmul(i64::MAX, i64::MAX), i64::MAX);
    assert_eq!(fmul(i64::MAX, i64::MIN), i64::MIN);
}

#[test]
fn fdiv_divides_fixed_point_values() {
    // 3 / 2 = 1.5
    assert_eq!(fdiv(3 * SCALE, 2 * SCALE), 98304);
    // 1 / 3 rounds down
    assert_eq!(fdiv(SCALE, 3 * SCALE), 21845);
    assert_eq!(fdiv(-SCALE, 3 * SCALE), -21846);
    assert_eq!(fdiv(SCALE, -3 * SCALE), -21846);
    assert_eq!(fdiv(-SCALE, -3 * SCALE), 21845);
    // plain integers: the scale cancels
    assert_eq!(fdiv(1, 4), 16384);
}

#[test]
fn fdiv_by_zero_is_zero() {
    assert_eq!(fdiv(12345, 0), 0);
    assert_eq!(fdiv(-1, 0), 0);
}

#[test]
fn fdiv_saturates() {
    assert_eq!(fdiv(i64::MAX, 1), i64::MAX);
    assert_eq!(fdiv(i64::MIN, 1), i64::MIN);
}

#[test]
fn isqrt_rounds_down() {
    assert_eq!(isqrt(0), 0);
    assert_eq!(isqrt(1), 1);
    assert_eq!(isqrt(15), 3);
    assert_eq!(isqrt(16), 4);
    assert_eq!(isqrt(17), 4);
    assert_eq!(isqrt(u128::MAX), 18446744073709551615);
    assert_eq!(isqrt(1 << 64), 1 << 32);
}
