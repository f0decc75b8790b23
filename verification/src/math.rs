//! Integer and decimal arithmetic for `std::math` and the `/`, `%` operators:
//! truncated and floored division with their remainders, absolute value,
//! minimum and maximum, powers, clamping, and decimal-to-integer rounding.

use vstd::arithmetic::div_mod::*;
use vstd::prelude::*;

verus! {

/// The error code of a division or remainder by zero.
pub const RUN_DIVIDE_BY_ZERO: &'static str = "run.divide_by_zero";

/// The error code of an arithmetic result outside the `int` envelope.
pub const RUN_OVERFLOW: &'static str = "run.overflow";

/// Why an arithmetic operation has no `int` result.
#[derive(Debug, Clone, Copy, PartialEq, Eq, Structural)]
pub enum MathError {
    QuotientByZero,
    RemainderByZero,
    Overflow,
    NegativeExponent,
    ClampBounds,
}

impl MathError {
    /// The error code: a division fault, an overflow, or a type error.
    pub fn code(&self) -> (r: &'static str)
        ensures
            r@ == (match self {
                MathError::QuotientByZero | MathError::RemainderByZero => RUN_DIVIDE_BY_ZERO@,
                MathError::Overflow => RUN_OVERFLOW@,
                _ => "run.type"@,
            }),
    {
        match self {
            MathError::QuotientByZero | MathError::RemainderByZero => RUN_DIVIDE_BY_ZERO,
            MathError::Overflow => RUN_OVERFLOW,
            _ => "run.type",
        }
    }

    /// The diagnostic text.
    pub fn message(&self) -> (r: &'static str)
        ensures
            r@ == (match self {
                MathError::QuotientByZero => "integer quotient by zero"@,
                MathError::RemainderByZero => "integer remainder by zero"@,
                MathError::Overflow => "integer overflow"@,
                MathError::NegativeExponent => "powInt exponent must be non-negative"@,
                MathError::ClampBounds => "clampInt min must be <= max"@,
            }),
    {
        match self {
            MathError::QuotientByZero => "integer quotient by zero",
            MathError::RemainderByZero => "integer remainder by zero",
            MathError::Overflow => "integer overflow",
            MathError::NegativeExponent => "powInt exponent must be non-negative",
            MathError::ClampBounds => "clampInt min must be <= max",
        }
    }
}

/// Whether a value lies in the `int` envelope.
pub open spec fn fits_i64(v: int) -> bool {
    i64::MIN <= v <= i64::MAX
}

/// The quotient truncated toward zero.
pub open spec fn trunc_div(a: int, b: int) -> int {
    if a >= 0 && b > 0 {
        a / b
    } else if a < 0 && b < 0 {
        (-a) / (-b)
    } else if a < 0 {
        -((-a) / b)
    } else {
        -(a / (-b))
    }
}

/// The remainder of the truncated quotient: the sign of the dividend.
pub open spec fn trunc_rem(a: int, b: int) -> int {
    if a >= 0 && b > 0 {
        a % b
    } else if a < 0 && b < 0 {
        -((-a) % (-b))
    } else if a < 0 {
        -((-a) % b)
    } else {
        a % (-b)
    }
}

/// The quotient floored toward minus infinity.
pub open spec fn floor_div(a: int, b: int) -> int {
    if b > 0 {
        a / b
    } else {
        (-a) / (-b)
    }
}

/// The remainder of the floored quotient: the sign of the divisor.
pub open spec fn floor_mod(a: int, b: int) -> int {
    if b > 0 {
        a % b
    } else {
        -((-a) % (-b))
    }
}

/// For a non-zero divisor, the truncated quotient and its remainder
/// recompose the dividend, and the remainder is smaller than the divisor and
/// carries the dividend's sign.
pub proof fn lemma_truncated_division(a: int, b: int)
    requires
        b != 0,
    ensures
        a == trunc_div(a, b) * b + trunc_rem(a, b),
        -b < trunc_rem(a, b) < b || b < trunc_rem(a, b) < -b,
        trunc_rem(a, b) == 0 || ((trunc_rem(a, b) > 0) == (a > 0)),
{
    if a >= 0 && b > 0 {
        lemma_fundamental_div_mod(a, b);
        lemma_mod_bound(a, b);
        assert(a == (a / b) * b + a % b) by (nonlinear_arith)
            requires
                a == b * (a / b) + a % b,
        ;
    } else if a < 0 && b < 0 {
        lemma_fundamental_div_mod(-a, -b);
        lemma_mod_bound(-a, -b);
        let q = (-a) / (-b);
        let r = (-a) % (-b);
        assert(a == q * b + (-r)) by (nonlinear_arith)
            requires
                -a == (-b) * q + r,
        ;
    } else if a < 0 {
        lemma_fundamental_div_mod(-a, b);
        lemma_mod_bound(-a, b);
        let q = (-a) / b;
        let r = (-a) % b;
        assert(a == (-q) * b + (-r)) by (nonlinear_arith)
            requires
                -a == b * q + r,
        ;
    } else {
        lemma_fundamental_div_mod(a, -b);
        lemma_mod_bound(a, -b);
        let q = a / (-b);
        let r = a % (-b);
        assert(a == (-q) * b + r) by (nonlinear_arith)
            requires
                a == (-b) * q + r,
        ;
    }
}

/// For a non-zero divisor, the floored quotient and its remainder recompose
/// the dividend, and the remainder lies between zero and the divisor.
pub proof fn lemma_floored_division(a: int, b: int)
    requires
        b != 0,
    ensures
        a == floor_div(a, b) * b + floor_mod(a, b),
        b > 0 ==> 0 <= floor_mod(a, b) < b,
        b < 0 ==> b < floor_mod(a, b) <= 0,
{
    if b > 0 {
        lemma_fundamental_div_mod(a, b);
        lemma_mod_bound(a, b);
        assert(a == (a / b) * b + a % b) by (nonlinear_arith)
            requires
                a == b * (a / b) + a % b,
        ;
    } else {
        lemma_fundamental_div_mod(-a, -b);
        lemma_mod_bound(-a, -b);
        let q = (-a) / (-b);
        let r = (-a) % (-b);
        assert(a == q * b + (-r)) by (nonlinear_arith)
            requires
                -a == (-b) * q + r,
        ;
    }
}

/// A quotient and remainder that recompose the dividend, with the remainder
/// between zero and the divisor, are the floored ones.
proof fn lemma_floor_unique(a: int, b: int, q: int, r: int)
    requires
        b != 0,
        a == q * b + r,
        b > 0 ==> 0 <= r < b,
        b < 0 ==> b < r <= 0,
    ensures
        q == floor_div(a, b),
        r == floor_mod(a, b),
{
    if b > 0 {
        lemma_fundamental_div_mod_converse_div(a, b, q, r);
        lemma_fundamental_div_mod_converse_mod(a, b, q, r);
    } else {
        assert(-a == q * (-b) + (-r)) by (nonlinear_arith)
            requires
                a == q * b + r,
        ;
        lemma_fundamental_div_mod_converse_div(-a, -b, q, -r);
        lemma_fundamental_div_mod_converse_mod(-a, -b, q, -r);
    }
}

/// Every truncated quotient of `int` operands fits, but `i64::MIN / -1`.
proof fn lemma_trunc_div_fits(a: int, b: int)
    requires
        fits_i64(a),
        fits_i64(b),
        b != 0,
        !(a == i64::MIN && b == -1),
    ensures
        fits_i64(trunc_div(a, b)),
{
    if a >= 0 && b > 0 {
        assert(0 <= a / b <= a) by (nonlinear_arith)
            requires
                a >= 0,
                b >= 1,
        ;
    } else if a < 0 && b < 0 {
        if b == -1 {
            assert((-a) / 1 == -a) by (nonlinear_arith);
        } else {
            assert(0 <= (-a) / (-b) <= (-a) / 2) by (nonlinear_arith)
                requires
                    -a >= 0,
                    -b >= 2,
            ;
        }
    } else if a < 0 {
        assert(0 <= (-a) / b <= -a) by (nonlinear_arith)
            requires
                -a >= 0,
                b >= 1,
        ;
    } else {
        assert(0 <= a / (-b) <= a) by (nonlinear_arith)
            requires
                a >= 0,
                -b >= 1,
        ;
    }
}

/// The integer quotient truncated toward zero. A zero divisor is a division
/// fault; `i64::MIN / -1`, the one quotient outside the `int` envelope, is an
/// overflow.
pub fn int_quotient(a: i64, b: i64) -> (r: Result<i64, MathError>)
    ensures
        b == 0 ==> r == Err::<i64, MathError>(MathError::QuotientByZero),
        b != 0 && a == i64::MIN && b == -1 ==> r == Err::<i64, MathError>(MathError::Overflow),
        b != 0 && !(a == i64::MIN && b == -1) ==> r == Ok::<i64, MathError>(
            trunc_div(a as int, b as int) as i64,
        ) && fits_i64(trunc_div(a as int, b as int)),
{
    if b == 0 {
        return Err(MathError::QuotientByZero);
    }
    proof {
        if a == 0 {
            assert(trunc_div(0, b as int) == 0) by (nonlinear_arith)
                requires
                    b != 0,
            ;
        }
        if !(a == i64::MIN && b == -1) {
            lemma_trunc_div_fits(a as int, b as int);
        }
    }
    match a.checked_div(b) {
        Some(q) => Ok(q),
        None => Err(MathError::Overflow),
    }
}

/// The remainder of the truncated quotient, which always fits: a zero
/// divisor is a division fault.
pub fn int_remainder(a: i64, b: i64) -> (r: Result<i64, MathError>)
    ensures
        b == 0 ==> r == Err::<i64, MathError>(MathError::RemainderByZero),
        b != 0 ==> r == Ok::<i64, MathError>(trunc_rem(a as int, b as int) as i64) && fits_i64(
            trunc_rem(a as int, b as int),
        ),
{
    if b == 0 {
        return Err(MathError::RemainderByZero);
    }
    proof {
        lemma_truncated_division(a as int, b as int);
    }
    match a.checked_rem(b) {
        Some(m) => Ok(m),
        None => {
            assert(a == i64::MIN && b == -1);
            assert(trunc_rem(a as int, b as int) == 0);
            Ok(0)
        },
    }
}

/// The integer quotient floored toward minus infinity: one below the
/// truncated quotient when the operands have opposite signs and do not divide
/// evenly. A zero divisor is a division fault; `i64::MIN / -1` is an
/// overflow.
pub fn int_div_floor(a: i64, b: i64) -> (r: Result<i64, MathError>)
    ensures
        b == 0 ==> r == Err::<i64, MathError>(MathError::QuotientByZero),
        b != 0 && a == i64::MIN && b == -1 ==> r == Err::<i64, MathError>(MathError::Overflow),
        b != 0 && !(a == i64::MIN && b == -1) ==> r == Ok::<i64, MathError>(
            floor_div(a as int, b as int) as i64,
        ) && fits_i64(floor_div(a as int, b as int)),
{
    let quotient = match int_quotient(a, b) {
        Ok(q) => q,
        Err(e) => return Err(e),
    };
    let remainder = match int_remainder(a, b) {
        Ok(m) => m,
        Err(e) => return Err(e),
    };
    proof {
        lemma_truncated_division(a as int, b as int);
    }
    if remainder != 0 && (remainder < 0) != (b < 0) {
        proof {
            assert(a == (quotient - 1) * b + (remainder + b)) by (nonlinear_arith)
                requires
                    a == quotient * b + remainder,
            ;
            lemma_floor_unique(a as int, b as int, quotient - 1, remainder + b);
            lemma_floored_division(a as int, b as int);
        }
        assert(quotient > i64::MIN) by {
            if quotient == i64::MIN {
                assert(a == i64::MIN * b + remainder);
                assert(false) by (nonlinear_arith)
                    requires
                        a == i64::MIN * b + remainder,
                        i64::MIN <= a <= i64::MAX,
                        remainder != 0,
                        (remainder < 0) != (b < 0),
                        -b < remainder < b || b < remainder < -b,
                        b != 0,
                ;
            }
        }
        Ok(quotient - 1)
    } else {
        proof {
            lemma_floor_unique(a as int, b as int, quotient as int, remainder as int);
        }
        Ok(quotient)
    }
}

/// The remainder of the floored quotient, which carries the divisor's sign
/// and always fits: a zero divisor is a division fault.
pub fn int_modulo(a: i64, b: i64) -> (r: Result<i64, MathError>)
    ensures
        b == 0 ==> r == Err::<i64, MathError>(MathError::RemainderByZero),
        b != 0 ==> r == Ok::<i64, MathError>(floor_mod(a as int, b as int) as i64) && fits_i64(
            floor_mod(a as int, b as int),
        ),
{
    let remainder = match int_remainder(a, b) {
        Ok(m) => m,
        Err(e) => return Err(e),
    };
    proof {
        lemma_truncated_division(a as int, b as int);
    }
    let ghost t = trunc_div(a as int, b as int);
    if remainder != 0 && (remainder < 0) != (b < 0) {
        proof {
            assert(a == (t - 1) * b + (remainder + b)) by (nonlinear_arith)
                requires
                    a == t * b + remainder,
            ;
            lemma_floor_unique(a as int, b as int, t - 1, remainder + b);
        }
        Ok(remainder + b)
    } else {
        proof {
            lemma_floor_unique(a as int, b as int, t, remainder as int);
        }
        Ok(remainder)
    }
}

/// The absolute value; `i64::MIN` has none in the `int` envelope.
pub fn abs_int(value: i64) -> (r: Result<i64, MathError>)
    ensures
        value == i64::MIN ==> r == Err::<i64, MathError>(MathError::Overflow),
        value != i64::MIN ==> r == Ok::<i64, MathError>(
            (if value < 0 {
                -value
            } else {
                value as int
            }) as i64,
        ),
{
    if value == i64::MIN {
        Err(MathError::Overflow)
    } else if value < 0 {
        Ok(-value)
    } else {
        Ok(value)
    }
}

/// The smaller of two ints.
pub fn min_int(a: i64, b: i64) -> (r: i64)
    ensures
        r == (if a <= b {
            a
        } else {
            b
        }),
{
    if a <= b {
        a
    } else {
        b
    }
}

/// The larger of two ints.
pub fn max_int(a: i64, b: i64) -> (r: i64)
    ensures
        r == (if a >= b {
            a
        } else {
            b
        }),
{
    if a >= b {
        a
    } else {
        b
    }
}

/// `value` brought inside `min..=max`; `min` above `max` is refused.
pub fn clamp_int(value: i64, min: i64, max: i64) -> (r: Result<i64, MathError>)
    ensures
        min > max ==> r == Err::<i64, MathError>(MathError::ClampBounds),
        min <= max ==> r == Ok::<i64, MathError>(
            if value < min {
                min
            } else if value > max {
                max
            } else {
                value
            },
        ),
{
    if min > max {
        return Err(MathError::ClampBounds);
    }
    if value < min {
        Ok(min)
    } else if value > max {
        Ok(max)
    } else {
        Ok(value)
    }
}

/// `b` to the power `e`.
pub open spec fn int_pow(b: int, e: nat) -> int
    decreases e,
{
    if e == 0 {
        1
    } else {
        b * int_pow(b, (e - 1) as nat)
    }
}

proof fn lemma_pow_unit(b: int, e: nat)
    requires
        -1 <= b <= 1,
    ensures
        b == 0 ==> int_pow(b, e) == (if e == 0 {
            1int
        } else {
            0
        }),
        b == 1 ==> int_pow(b, e) == 1,
        b == -1 ==> int_pow(b, e) == (if e % 2 == 0 {
            1int
        } else {
            -1
        }),
    decreases e,
{
    if e > 0 {
        lemma_pow_unit(b, (e - 1) as nat);
    }
}

proof fn lemma_pow_abs_grows(b: int, e: nat)
    requires
        b <= -2 || b >= 2,
    ensures
        int_pow(b, e) >= e || int_pow(b, e) <= -e,
        e >= 1 ==> (int_pow(b, e) >= 2 || int_pow(b, e) <= -2),
    decreases e,
{
    if e > 0 {
        let p = int_pow(b, (e - 1) as nat);
        lemma_pow_abs_grows(b, (e - 1) as nat);
        if e >= 2 {
            assert(p >= 2 || p <= -2);
        } else {
            assert(p == 1);
        }
        assert(b * p >= e || b * p <= -e) by (nonlinear_arith)
            requires
                b <= -2 || b >= 2,
                p >= e - 1 || p <= -(e - 1),
                e >= 2 ==> (p >= 2 || p <= -2),
                e == 1 ==> p == 1,
                e >= 1,
        ;
        assert(b * p >= 2 || b * p <= -2) by (nonlinear_arith)
            requires
                b <= -2 || b >= 2,
                p >= 1 || p <= -1,
        ;
    }
}

/// Once a power of a base of magnitude two or more leaves the `int`
/// envelope, every higher power does.
proof fn lemma_pow_stays_out(b: int, k: nat, m: nat)
    requires
        b <= -2 || b >= 2,
        k <= m,
        !fits_i64(int_pow(b, k)),
    ensures
        !fits_i64(int_pow(b, m)),
    decreases m - k,
{
    if k < m {
        lemma_pow_stays_out(b, k, (m - 1) as nat);
        let p = int_pow(b, (m - 1) as nat);
        assert(!fits_i64(b * p)) by (nonlinear_arith)
            requires
                b <= -2 || b >= 2,
                !fits_i64(p),
        ;
    }
}

/// `base` to the power `exp`: a negative exponent is refused, and a power
/// outside the `int` envelope is an overflow.
pub fn pow_int(base: i64, exp: i64) -> (r: Result<i64, MathError>)
    ensures
        exp < 0 ==> r == Err::<i64, MathError>(MathError::NegativeExponent),
        exp >= 0 && fits_i64(int_pow(base as int, exp as nat)) ==> r == Ok::<i64, MathError>(
            int_pow(base as int, exp as nat) as i64,
        ),
        exp >= 0 && !fits_i64(int_pow(base as int, exp as nat)) ==> r == Err::<i64, MathError>(
            MathError::Overflow,
        ),
{
    if exp < 0 {
        return Err(MathError::NegativeExponent);
    }
    if base == 0 || base == 1 || base == -1 {
        proof {
            lemma_pow_unit(base as int, exp as nat);
        }
        if base == 1 {
            return Ok(1);
        } else if base == 0 {
            return Ok(if exp == 0 {
                1
            } else {
                0
            });
        } else {
            return Ok(if exp % 2 == 0 {
                1
            } else {
                -1
            });
        }
    }
    let mut acc: i64 = 1;
    let mut i: i64 = 0;
    while i < exp
        invariant
            0 <= i <= exp,
            base <= -2 || base >= 2,
            acc as int == int_pow(base as int, i as nat),
        decreases exp - i,
    {
        assert(int_pow(base as int, (i + 1) as nat) == base * int_pow(base as int, i as nat));
        assert(acc * base == base * acc) by (nonlinear_arith);
        match acc.checked_mul(base) {
            Some(next) => {
                acc = next;
            },
            None => {
                proof {
                    lemma_pow_stays_out(base as int, (i + 1) as nat, exp as nat);
                }
                return Err(MathError::Overflow);
            },
        }
        i = i + 1;
    }
    Ok(acc)
}

/// `10` to the power `n`.
pub open spec fn pow10(n: nat) -> int
    decreases n,
{
    if n == 0 {
        1
    } else {
        10 * pow10((n - 1) as nat)
    }
}

/// The largest scale of a decimal.
pub const DECIMAL_MAX_SCALE: u32 = 34;

proof fn lemma_pow10_mono(n: nat, m: nat)
    requires
        n <= m,
    ensures
        1 <= pow10(n) <= pow10(m),
    decreases m,
{
    if n < m {
        lemma_pow10_mono(n, (m - 1) as nat);
    } else if n > 0 {
        lemma_pow10_mono((n - 1) as nat, (n - 1) as nat);
    }
}

proof fn lemma_pow10_bounds(n: nat)
    ensures
        pow10(n) >= 1,
        n <= 34 ==> pow10(n) <= 10_000_000_000_000_000_000_000_000_000_000_000,
{
    assert(pow10(34) == 10_000_000_000_000_000_000_000_000_000_000_000) by {
        reveal_with_fuel(pow10, 35);
    }
    if n <= 34 {
        lemma_pow10_mono(n, 34);
    } else {
        lemma_pow10_mono(n, n);
    }
}

/// `10` to the power `scale`.
fn decimal_divisor(scale: u32) -> (r: i128)
    requires
        scale <= DECIMAL_MAX_SCALE,
    ensures
        r as int == pow10(scale as nat),
        r >= 1,
{
    let mut d: i128 = 1;
    let mut i: u32 = 0;
    while i < scale
        invariant
            i <= scale <= 34,
            d as int == pow10(i as nat),
        decreases scale - i,
    {
        proof {
            lemma_pow10_bounds(i as nat);
            lemma_pow10_bounds((i + 1) as nat);
        }
        d = d * 10;
        i = i + 1;
    }
    proof {
        lemma_pow10_bounds(scale as nat);
    }
    d
}

/// The smallest integer not below `coefficient / 10^scale`.
pub open spec fn decimal_ceiling(coefficient: int, scale: nat) -> int {
    -((-coefficient) / pow10(scale))
}

/// The largest integer not above `coefficient / 10^scale`.
pub open spec fn decimal_floor(coefficient: int, scale: nat) -> int {
    coefficient / pow10(scale)
}

/// `coefficient / 10^scale` rounded to the nearest integer, a tie going to
/// the even neighbour.
pub open spec fn decimal_round_half_even(coefficient: int, scale: nat) -> int {
    let d = pow10(scale);
    let q = coefficient / d;
    let r = coefficient % d;
    if 2 * r > d || (2 * r == d && q % 2 != 0) {
        q + 1
    } else {
        q
    }
}

/// The ceiling of the decimal `coefficient * 10^-scale`.
pub fn ceiling_decimal(coefficient: i128, scale: u32) -> (r: i128)
    requires
        scale <= DECIMAL_MAX_SCALE,
    ensures
        r as int == decimal_ceiling(coefficient as int, scale as nat),
{
    if scale == 0 {
        assert(pow10(0) == 1);
        return coefficient;
    }
    let divisor = decimal_divisor(scale);
    let quotient = coefficient / divisor;
    let remainder = coefficient % divisor;
    proof {
        lemma_truncated_division(coefficient as int, divisor as int);
        lemma_floored_division(-coefficient as int, divisor as int);
        assert(quotient == trunc_div(coefficient as int, divisor as int));
        assert(remainder == trunc_rem(coefficient as int, divisor as int));
    }
    let ghost c = coefficient as int;
    let ghost d = divisor as int;
    let ghost f = (-c) / d;
    let ghost m = (-c) % d;
    if coefficient > 0 && remainder != 0 {
        assert(quotient < i128::MAX) by (nonlinear_arith)
            requires
                c == quotient * d + remainder,
                0 < c <= i128::MAX,
                0 < remainder < d,
        ;
        proof {
            assert(-c == (-(quotient + 1)) * d + (d - remainder)) by (nonlinear_arith)
                requires
                    c == quotient * d + remainder,
            ;
            lemma_floor_unique(-c, d, -(quotient + 1), d - remainder);
        }
        quotient + 1
    } else {
        proof {
            assert(-c == (-quotient) * d + (-remainder)) by (nonlinear_arith)
                requires
                    c == quotient * d + remainder,
            ;
            lemma_floor_unique(-c, d, -quotient as int, -remainder as int);
        }
        quotient
    }
}

/// The floor of the decimal `coefficient * 10^-scale`.
pub fn floor_decimal(coefficient: i128, scale: u32) -> (r: i128)
    requires
        scale <= DECIMAL_MAX_SCALE,
    ensures
        r as int == decimal_floor(coefficient as int, scale as nat),
{
    let divisor = decimal_divisor(scale);
    let quotient = coefficient / divisor;
    let remainder = coefficient % divisor;
    proof {
        lemma_truncated_division(coefficient as int, divisor as int);
        assert(quotient == trunc_div(coefficient as int, divisor as int));
        assert(remainder == trunc_rem(coefficient as int, divisor as int));
    }
    if coefficient < 0 && remainder != 0 {
        assert(quotient > i128::MIN) by (nonlinear_arith)
            requires
                coefficient == quotient * divisor + remainder,
                i128::MIN <= coefficient < 0,
                divisor > -remainder > 0,
        ;
        proof {
            assert(coefficient == (quotient - 1) * divisor + (remainder + divisor)) by (nonlinear_arith)
                requires
                    coefficient == quotient * divisor + remainder,
            ;
            lemma_floor_unique(coefficient as int, divisor as int, quotient - 1, remainder + divisor);
        }
        quotient - 1
    } else {
        proof {
            lemma_floor_unique(coefficient as int, divisor as int, quotient as int, remainder as int);
        }
        quotient
    }
}

/// The decimal `coefficient * 10^-scale` rounded to an integer, a tie going
/// to the even neighbour.
pub fn round_decimal_half_even_to_integer(coefficient: i128, scale: u32) -> (r: i128)
    requires
        scale <= DECIMAL_MAX_SCALE,
    ensures
        r as int == decimal_round_half_even(coefficient as int, scale as nat),
{
    let divisor = decimal_divisor(scale);
    let floor = floor_decimal(coefficient, scale);
    let truncated = coefficient % divisor;
    proof {
        lemma_truncated_division(coefficient as int, divisor as int);
        lemma_floored_division(coefficient as int, divisor as int);
        lemma_pow10_bounds(scale as nat);
        assert(truncated == trunc_rem(coefficient as int, divisor as int));
    }
    let ghost c = coefficient as int;
    let ghost d = divisor as int;
    let ghost t = trunc_div(c, d);
    let rest = if truncated < 0 {
        truncated + divisor
    } else {
        truncated
    };
    proof {
        if truncated < 0 {
            assert(c == (t - 1) * d + (truncated + d)) by (nonlinear_arith)
                requires
                    c == t * d + truncated,
            ;
            lemma_floor_unique(c, d, t - 1, truncated + d);
        } else {
            lemma_floor_unique(c, d, t, truncated as int);
        }
    }
    assert(rest == c % d);
    let twice = rest * 2;
    if twice > divisor || (twice == divisor && floor % 2 != 0) {
        assert(floor < i128::MAX) by (nonlinear_arith)
            requires
                c == floor * d + rest,
                0 < rest < d,
                c <= i128::MAX,
        ;
        floor + 1
    } else {
        floor
    }
}

/// An integer result of decimal rounding, as an `int`: an overflow when it
/// leaves the `int` envelope.
pub fn decimal_to_i64(value: i128) -> (r: Result<i64, MathError>)
    ensures
        fits_i64(value as int) ==> r == Ok::<i64, MathError>(value as i64),
        !fits_i64(value as int) ==> r == Err::<i64, MathError>(MathError::Overflow),
{
    if value < i64::MIN as i128 || value > i64::MAX as i128 {
        Err(MathError::Overflow)
    } else {
        Ok(value as i64)
    }
}

} // verus!
