//! Fixed-point scalar arithmetic: every real quantity of the renderer
//! (coordinates, ray parameters, color channels) is an `i64` counting
//! millionths of a unit. All rounding is toward zero.

use vstd::prelude::*;

verus! {

use vstd::arithmetic::div_mod::{
    lemma_div_is_ordered, lemma_div_multiples_vanish, lemma_div_pos_is_pos,
};

/// One whole unit, as a count of millionths.
pub const SCALE: i64 = 1_000_000;

/// Quotient rounded toward zero; the division used throughout the
/// fixed-point layer. Meaningful only for `d > 0`.
pub open spec fn div_tz(n: int, d: int) -> int {
    if n >= 0 {
        n / d
    } else {
        -((-n) / d)
    }
}

/// Product of two fixed-point numbers.
pub open spec fn fmul(a: int, b: int) -> int {
    div_tz(a * b, SCALE as int)
}

/// Quotient of two fixed-point numbers.
pub open spec fn fdiv(a: int, b: int) -> int {
    div_tz(a * SCALE, b)
}

/// `r` is the integer square root of `n`, rounded down.
pub open spec fn is_sqrt_of(n: int, r: int) -> bool {
    0 <= r && r * r <= n && n < (r + 1) * (r + 1)
}

/// The integer square root of `n`, rounded down (well defined for `n >= 0`
/// by `lemma_sqrt_floor_is`).
pub open spec fn sqrt_floor(n: int) -> int {
    choose|r: int| is_sqrt_of(n, r)
}

/// Square root of a non-negative fixed-point number.
pub open spec fn fsqrt(x: int) -> int {
    sqrt_floor(x * SCALE)
}

/// At most one integer is the rounded-down square root of `n`.
pub proof fn lemma_sqrt_unique(n: int, r1: int, r2: int)
    by (nonlinear_arith)
    requires
        is_sqrt_of(n, r1),
        is_sqrt_of(n, r2),
    ensures
        r1 == r2,
{
}

/// A witness that `r` is the rounded-down square root of `n` pins down
/// `sqrt_floor(n)`.
pub proof fn lemma_sqrt_floor_is(n: int, r: int)
    requires
        is_sqrt_of(n, r),
    ensures
        sqrt_floor(n) == r,
        is_sqrt_of(n, sqrt_floor(n)),
{
    assert(is_sqrt_of(n, sqrt_floor(n))) by {
        assert(exists|x: int| is_sqrt_of(n, x)) by {
            assert(is_sqrt_of(n, r));
        }
    }
    lemma_sqrt_unique(n, r, sqrt_floor(n));
}

/// The rounded-down square root of a perfect square is exact.
pub proof fn lemma_sqrt_of_square(r: int)
    requires
        r >= 0,
    ensures
        sqrt_floor(r * r) == r,
{
    assert(is_sqrt_of(r * r, r)) by (nonlinear_arith)
        requires
            r >= 0,
    ;
    lemma_sqrt_floor_is(r * r, r);
}

/// Truncating division shrinks magnitude proportionally to the bound `b`.
pub proof fn lemma_div_tz_bound(n: int, d: int, b: int)
    requires
        d > 0,
        0 <= b,
        -(b * d) <= n <= b * d,
    ensures
        -b <= div_tz(n, d) <= b,
{
    assert(b * d == d * b) by (nonlinear_arith);
    lemma_div_multiples_vanish(b, d);
    if n >= 0 {
        lemma_div_is_ordered(n, b * d, d);
        lemma_div_pos_is_pos(n, d);
    } else {
        lemma_div_is_ordered(-n, b * d, d);
        lemma_div_pos_is_pos(-n, d);
    }
}

/// Truncating division is exact on multiples of the divisor.
pub proof fn lemma_div_tz_exact(m: int, d: int)
    requires
        d > 0,
    ensures
        div_tz(m * d, d) == m,
{
    if m * d >= 0 {
        assert(m * d == d * m) by (nonlinear_arith);
        lemma_div_multiples_vanish(m, d);
    } else {
        assert(-(m * d) == d * (-m)) by (nonlinear_arith);
        lemma_div_multiples_vanish(-m, d);
    }
}

/// Truncating division inverts multiplication on exact multiples of the
/// divisor.
pub proof fn lemma_div_tz_of_multiple(m: int, d: int)
    requires
        d > 0,
        m % d == 0,
    ensures
        div_tz(m, d) * d == m,
{
    vstd::arithmetic::div_mod::lemma_fundamental_div_mod(m, d);
    assert((m / d) * d == m) by (nonlinear_arith)
        requires
            m == d * (m / d) + m % d,
            m % d == 0,
    ;
    lemma_div_tz_exact(m / d, d);
    assert(div_tz(m, d) * d == m) by (nonlinear_arith)
        requires
            div_tz(m, d) == m / d,
            (m / d) * d == m,
    ;
}

/// Rounding toward zero then scaling back never grows the square.
pub proof fn lemma_div_tz_mul_sq(n: int, d: int)
    requires
        d > 0,
    ensures
        (div_tz(n, d) * d) * (div_tz(n, d) * d) <= n * n,
{
    vstd::arithmetic::div_mod::lemma_fundamental_div_mod(n, d);
    vstd::arithmetic::div_mod::lemma_mod_bound(n, d);
    if n >= 0 {
        lemma_div_pos_is_pos(n, d);
        let q = n / d;
        let rm = n % d;
        assert(0 <= q * d <= n) by (nonlinear_arith)
            requires
                d > 0,
                n == d * q + rm,
                0 <= rm,
                0 <= q,
        ;
        assert(div_tz(n, d) * d == q * d);
    } else {
        vstd::arithmetic::div_mod::lemma_fundamental_div_mod(-n, d);
        vstd::arithmetic::div_mod::lemma_mod_bound(-n, d);
        lemma_div_pos_is_pos(-n, d);
        let q = (-n) / d;
        let rm = (-n) % d;
        assert(0 <= q * d <= -n) by (nonlinear_arith)
            requires
                d > 0,
                -n == d * q + rm,
                0 <= rm,
                0 <= q,
        ;
        assert(div_tz(n, d) * d == (-q) * d);
        assert((-q) * d == -(q * d)) by (nonlinear_arith);
    }
    assert((div_tz(n, d) * d) * (div_tz(n, d) * d) <= n * n) by (nonlinear_arith)
        requires
            (0 <= div_tz(n, d) * d <= n) || (n <= div_tz(n, d) * d <= 0),
    ;
}

/// Multiplying a fixed-point number by a whole unit gives it back.
pub proof fn lemma_fmul_unit(a: int)
    ensures
        fmul(a, SCALE as int) == a,
        fmul(SCALE as int, a) == a,
{
    lemma_div_tz_exact(a, SCALE as int);
    assert(a * (SCALE as int) == (SCALE as int) * a) by (nonlinear_arith);
}

/// Multiplication by zero is exactly zero.
pub proof fn lemma_fmul_zero(a: int)
    ensures
        fmul(a, 0) == 0,
        fmul(0, a) == 0,
{
    assert(a * 0 == 0) by (nonlinear_arith);
    assert(0 * a == 0) by (nonlinear_arith);
}

/// Negating one factor negates the truncating product.
pub proof fn lemma_fmul_neg(a: int, b: int)
    ensures
        fmul(a, -b) == -fmul(a, b),
        fmul(-a, b) == -fmul(a, b),
{
    assert(a * (-b) == -(a * b)) by (nonlinear_arith);
    assert((-a) * b == -(a * b)) by (nonlinear_arith);
    assert(-(-(a * b)) == a * b);
}

/// Truncating division is monotone in the magnitude of the numerator.
pub proof fn lemma_div_tz_mono(x: int, xb: int, d: int)
    requires
        d > 0,
        0 <= xb,
        -xb <= x <= xb,
    ensures
        -(xb / d) <= div_tz(x, d) <= xb / d,
        0 <= xb / d,
{
    lemma_div_pos_is_pos(xb, d);
    if x >= 0 {
        lemma_div_is_ordered(x, xb, d);
        lemma_div_pos_is_pos(x, d);
    } else {
        lemma_div_is_ordered(-x, xb, d);
        lemma_div_pos_is_pos(-x, d);
    }
}

/// Truncating division is monotone in the numerator.
pub proof fn lemma_div_tz_ordered(m: int, n: int, d: int)
    requires
        d > 0,
        m <= n,
    ensures
        div_tz(m, d) <= div_tz(n, d),
{
    if m >= 0 {
        lemma_div_is_ordered(m, n, d);
    } else if n >= 0 {
        lemma_div_pos_is_pos(-m, d);
        lemma_div_pos_is_pos(n, d);
    } else {
        lemma_div_is_ordered(-n, -m, d);
    }
}

/// Negating the numerator negates the truncating quotient.
pub proof fn lemma_div_tz_neg(m: int, d: int)
    requires
        d > 0,
    ensures
        div_tz(-m, d) == -div_tz(m, d),
{
    if m == 0 {
        vstd::arithmetic::div_mod::lemma_div_of0(d);
    }
}

/// Bounds for a fixed-point product from bounds `ba`, `bb` on its factors:
/// the raw product is a legal `fx_mul` operand pair and the result lies
/// within the chosen bound `bo`.
pub proof fn lemma_fmul_in_range(a: int, b: int, ba: int, bb: int, bo: int)
    requires
        0 <= ba,
        0 <= bb,
        0 <= bo <= i64::MAX as int,
        -ba <= a <= ba,
        -bb <= b <= bb,
        ba * bb <= bo * SCALE,
    ensures
        -(i64::MAX as int) * (SCALE as int) <= a * b <= (i64::MAX as int) * (SCALE as int),
        -bo <= fmul(a, b) <= bo,
{
    assert(-(ba * bb) <= a * b <= ba * bb) by (nonlinear_arith)
        requires
            -ba <= a <= ba,
            -bb <= b <= bb,
            0 <= ba,
            0 <= bb,
    ;
    lemma_div_tz_bound(a * b, SCALE as int, bo);
    assert(bo * (SCALE as int) <= (i64::MAX as int) * (SCALE as int)) by (nonlinear_arith)
        requires
            0 <= bo <= i64::MAX as int,
    ;
}

/// Bounds for a fixed-point quotient from a bound `ba` on the numerator, a
/// positive floor `bmin` on the denominator and a chosen result bound `bo`.
pub proof fn lemma_fdiv_in_range(a: int, b: int, ba: int, bmin: int, bo: int)
    requires
        0 <= ba,
        0 < bmin <= b,
        0 <= bo <= i64::MAX as int,
        -ba <= a <= ba,
        ba * SCALE <= bo * bmin,
    ensures
        -(i64::MAX as int) * b <= a * SCALE <= (i64::MAX as int) * b,
        -bo <= fdiv(a, b) <= bo,
{
    assert(-(bo * b) <= a * SCALE <= bo * b && bo * b <= (i64::MAX as int) * b && -((
    i64::MAX as int) * b) <= -(bo * b)) by (nonlinear_arith)
        requires
            -ba <= a <= ba,
            0 <= ba,
            ba * SCALE <= bo * bmin,
            0 < bmin <= b,
            0 <= bo <= i64::MAX as int,
            SCALE == 1_000_000,
    ;
    lemma_div_tz_bound(a * SCALE, b, bo);
}

/// A strict version of the quotient bound: a numerator strictly below
/// `b * d` gives a quotient strictly below `b`.
pub proof fn lemma_div_tz_below(n: int, d: int, b: int)
    requires
        d > 0,
        0 <= n < b * d,
    ensures
        0 <= div_tz(n, d) < b,
{
    lemma_div_pos_is_pos(n, d);
    vstd::arithmetic::div_mod::lemma_fundamental_div_mod(n, d);
    vstd::arithmetic::div_mod::lemma_mod_bound(n, d);
    assert(n / d < b) by (nonlinear_arith)
        requires
            n == d * (n / d) + n % d,
            0 <= n % d < d,
            n < b * d,
            d > 0,
            n >= 0,
            n / d >= 0,
    ;
}

/// A product of unit-interval fixed-point numbers stays in the unit
/// interval, below either factor.
pub proof fn lemma_fmul_unit_interval(a: int, b: int)
    requires
        0 <= a <= SCALE,
        0 <= b <= SCALE,
    ensures
        0 <= fmul(a, b),
        fmul(a, b) <= a,
        fmul(a, b) <= b,
        fmul(a, b) <= SCALE,
{
    assert(0 <= a * b && a * b <= a * SCALE && a * b <= b * SCALE) by (nonlinear_arith)
        requires
            0 <= a <= SCALE,
            0 <= b <= SCALE,
    ;
    lemma_div_tz_ordered(a * b, a * (SCALE as int), SCALE as int);
    lemma_div_tz_ordered(a * b, b * (SCALE as int), SCALE as int);
    lemma_div_tz_exact(a, SCALE as int);
    lemma_div_tz_exact(b, SCALE as int);
    lemma_div_pos_is_pos(a * b, SCALE as int);
}

/// Truncating quotient rounded toward zero, on machine integers.
pub(crate) fn div_q(n: i128, d: i128) -> (q: i128)
    requires
        d > 0,
        n > i128::MIN,
    ensures
        q == div_tz(n as int, d as int),
{
    let q: i128 = if n >= 0 {
        let un: u128 = n as u128;
        let ud: u128 = d as u128;
        let uq: u128 = un / ud;
        assert(uq <= un) by {
            lemma_div_is_ordered(un as int, un as int, ud as int);
            vstd::arithmetic::div_mod::lemma_div_nonincreasing(un as int, ud as int);
        }
        uq as i128
    } else {
        let un: u128 = (-n) as u128;
        let ud: u128 = d as u128;
        let uq: u128 = un / ud;
        assert(uq <= un) by {
            vstd::arithmetic::div_mod::lemma_div_nonincreasing(un as int, ud as int);
        }
        -(uq as i128)
    };
    q
}

/// The largest raw value `isqrt` accepts; its square root fits well under
/// the search's upper bracket.
pub const ISQRT_MAX: u128 = 150_000_000_000_000_000_000_000_000_000_000_000_000;

/// Integer square root, rounded down, by bisection.
pub fn isqrt(n: u128) -> (r: u128)
    requires
        n <= ISQRT_MAX,
    ensures
        is_sqrt_of(n as int, r as int),
        r == sqrt_floor(n as int),
        r <= 13_000_000_000_000_000_000u128,
{
    let mut lo: u128 = 0;
    let mut hi: u128 = 13_000_000_000_000_000_000;
    assert(hi * hi > n) by (nonlinear_arith)
        requires
            n <= ISQRT_MAX,
            hi == 13_000_000_000_000_000_000u128,
    ;
    while lo + 1 < hi
        invariant
            lo < hi <= 13_000_000_000_000_000_000u128,
            lo * lo <= n,
            n < hi * hi,
        decreases hi - lo,
    {
        let mid: u128 = lo + (hi - lo) / 2;
        assert(lo < mid < hi);
        assert(mid * mid <= u128::MAX) by (nonlinear_arith)
            requires
                mid <= 13_000_000_000_000_000_000u128,
        ;
        if mid * mid <= n {
            lo = mid;
        } else {
            hi = mid;
        }
    }
    proof {
        lemma_sqrt_floor_is(n as int, lo as int);
    }
    lo
}

/// Fixed-point product, rounded toward zero.
pub fn fx_mul(a: i64, b: i64) -> (r: i64)
    requires
        -(i64::MAX as int) * (SCALE as int) <= (a as int) * (b as int) <= (i64::MAX as int) * (
        SCALE as int),
    ensures
        r == fmul(a as int, b as int),
{
    assert((a as i128) * (b as i128) <= i128::MAX && (a as i128) * (b as i128) >= i128::MIN)
        by (nonlinear_arith)
        requires
            i64::MIN <= a <= i64::MAX,
            i64::MIN <= b <= i64::MAX,
    ;
    let p: i128 = (a as i128) * (b as i128);
    let q: i128 = div_q(p, SCALE as i128);
    proof {
        lemma_div_tz_bound(p as int, SCALE as int, i64::MAX as int);
    }
    q as i64
}

/// Fixed-point quotient, rounded toward zero; the divisor must be positive
/// and the quotient must fit.
pub fn fx_div(a: i64, b: i64) -> (r: i64)
    requires
        b > 0,
        -(i64::MAX as int) * (b as int) <= (a as int) * (SCALE as int) <= (i64::MAX as int) * (
        b as int),
    ensures
        r == fdiv(a as int, b as int),
{
    let p: i128 = (a as i128) * (SCALE as i128);
    let q: i128 = div_q(p, b as i128);
    proof {
        lemma_div_tz_bound(p as int, b as int, i64::MAX as int);
    }
    q as i64
}

/// A square root is below any value whose square exceeds the operand.
pub proof fn lemma_sqrt_lt(n: int, r: int, b: int)
    by (nonlinear_arith)
    requires
        is_sqrt_of(n, r),
        0 <= b,
        n < b * b,
    ensures
        r < b,
{
}

/// Fixed-point square root of a non-negative number, rounded down.
pub fn fx_sqrt(x: i64) -> (r: i64)
    requires
        x >= 0,
    ensures
        r == fsqrt(x as int),
        is_sqrt_of((x as int) * (SCALE as int), r as int),
        0 <= r <= 4_000_000_000_000i64,
{
    let xs: u128 = x as u128;
    assert(xs * (SCALE as u128) <= (i64::MAX as u128) * (SCALE as u128)) by (nonlinear_arith)
        requires
            xs <= i64::MAX as u128,
    ;
    let n: u128 = xs * (SCALE as u128);
    assert(n <= ISQRT_MAX);
    let r: u128 = isqrt(n);
    assert(r <= 4_000_000_000_000u128) by (nonlinear_arith)
        requires
            is_sqrt_of(n as int, r as int),
            n <= (i64::MAX as u128) * (SCALE as u128),
    ;
    proof {
        lemma_sqrt_floor_is(n as int, r as int);
    }
    r as i64
}

} // verus!
