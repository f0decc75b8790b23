use marrow_run::math::{
    abs_int, ceiling_decimal, clamp_int, decimal_to_i64, floor_decimal, int_div_floor,
    int_modulo, int_quotient, int_remainder, max_int, min_int, pow_int,
    round_decimal_half_even_to_integer, MathError, RUN_DIVIDE_BY_ZERO, RUN_OVERFLOW,
};

#[test]
fn the_single_non_representable_quotient_faults_rather_than_panicking() {
    assert_eq!(int_quotient(i64::MIN, -1).unwrap_err().code(), RUN_OVERFLOW);
    assert_eq!(int_div_floor(i64::MIN, -1).unwrap_err().code(), RUN_OVERFLOW);
}

#[test]
fn dividing_by_zero_faults_for_both_helpers() {
    assert_eq!(int_quotient(7, 0).unwrap_err().code(), RUN_DIVIDE_BY_ZERO);
    assert_eq!(int_div_floor(7, 0).unwrap_err().code(), RUN_DIVIDE_BY_ZERO);
    assert_eq!(int_remainder(7, 0), Err(MathError::RemainderByZero));
    assert_eq!(int_modulo(7, 0), Err(MathError::RemainderByZero));
}

#[test]
fn truncated_and_floored_pairs_match_rust() {
    for a in [-7i64, -6, -1, 0, 1, 6, 7, i64::MIN, i64::MAX] {
        for b in [-3i64, -2, -1, 1, 2, 3, i64::MAX, i64::MIN] {
            if a == i64::MIN && b == -1 {
                assert_eq!(int_remainder(a, b), Ok(0));
                assert_eq!(int_modulo(a, b), Ok(0));
                continue;
            }
            assert_eq!(int_quotient(a, b), Ok(a / b));
            assert_eq!(int_remainder(a, b), Ok(a % b));
            assert_eq!(int_div_floor(a, b), Ok(a.div_euclid(b) - if b < 0 && a.rem_euclid(b) != 0 { 1 } else { 0 }));
            let q = int_div_floor(a, b).unwrap() as i128;
            let m = int_modulo(a, b).unwrap() as i128;
            assert_eq!(q * b as i128 + m, a as i128);
            assert!(m == 0 || (m < 0) == (b < 0));
        }
    }
    assert_eq!(int_div_floor(-7, 2), Ok(-4));
    assert_eq!(int_modulo(-7, 2), Ok(1));
    assert_eq!(int_modulo(7, -2), Ok(-1));
    assert_eq!(int_quotient(-7, 2), Ok(-3));
    assert_eq!(int_remainder(-7, 2), Ok(-1));
}

#[test]
fn abs_min_max_clamp() {
    assert_eq!(abs_int(-5), Ok(5));
    assert_eq!(abs_int(i64::MIN), Err(MathError::Overflow));
    assert_eq!(min_int(3, -2), -2);
    assert_eq!(max_int(3, -2), 3);
    assert_eq!(clamp_int(10, 0, 5), Ok(5));
    assert_eq!(clamp_int(-10, 0, 5), Ok(0));
    assert_eq!(clamp_int(3, 0, 5), Ok(3));
    assert_eq!(clamp_int(3, 5, 0), Err(MathError::ClampBounds));
}

#[test]
fn powers_and_their_overflow() {
    assert_eq!(pow_int(2, 10), Ok(1024));
    assert_eq!(pow_int(-3, 3), Ok(-27));
    assert_eq!(pow_int(2, 62), Ok(1 << 62));
    assert_eq!(pow_int(2, 63), Err(MathError::Overflow));
    assert_eq!(pow_int(-2, 63), Ok(i64::MIN));
    assert_eq!(pow_int(-2, 64), Err(MathError::Overflow));
    assert_eq!(pow_int(7, 0), Ok(1));
    assert_eq!(pow_int(0, 0), Ok(1));
    assert_eq!(pow_int(0, i64::MAX), Ok(0));
    assert_eq!(pow_int(-1, i64::MAX), Ok(-1));
    assert_eq!(pow_int(-1, 1 << 40), Ok(1));
    assert_eq!(pow_int(2, -1), Err(MathError::NegativeExponent));
    assert_eq!(pow_int(3, i64::MAX), Err(MathError::Overflow));
}

#[test]
fn decimal_rounding_to_integers() {
    assert_eq!(ceiling_decimal(950, 2), 10);
    assert_eq!(ceiling_decimal(-950, 2), -9);
    assert_eq!(ceiling_decimal(900, 2), 9);
    assert_eq!(ceiling_decimal(7, 0), 7);
    assert_eq!(floor_decimal(950, 2), 9);
    assert_eq!(floor_decimal(-950, 2), -10);
    assert_eq!(floor_decimal(-900, 2), -9);
    assert_eq!(round_decimal_half_even_to_integer(25, 1), 2);
    assert_eq!(round_decimal_half_even_to_integer(35, 1), 4);
    assert_eq!(round_decimal_half_even_to_integer(-25, 1), -2);
    assert_eq!(round_decimal_half_even_to_integer(-35, 1), -4);
    assert_eq!(round_decimal_half_even_to_integer(26, 1), 3);
    assert_eq!(round_decimal_half_even_to_integer(-26, 1), -3);
    assert_eq!(round_decimal_half_even_to_integer(i128::MIN, 34), -17014);
    assert_eq!(decimal_to_i64(5), Ok(5));
    assert_eq!(decimal_to_i64(i64::MAX as i128 + 1), Err(MathError::Overflow));
}

#[test]
fn math_error_messages() {
    assert_eq!(MathError::QuotientByZero.message(), "integer quotient by zero");
    assert_eq!(MathError::NegativeExponent.message(), "powInt exponent must be non-negative");
}
