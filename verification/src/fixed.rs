//! Saturating fixed-point scalar arithmetic.
//!
//! Every scalar of the library (coordinate, time, mass, angle) is an
//! `i64` holding [`UNIT`] raw increments per world unit.  All operations
//! saturate at the `i64` range instead of overflowing, and divisions
//! truncate toward zero, so every function here is total and
//! deterministic.  Each executable operation is pinned to a spec-level
//! mirror over `int`.

use vstd::prelude::*;

verus! {

/// Raw increments per world unit: scalars carry three decimal places.
pub const UNIT: i64 = 1000;

/// Saturation of a mathematical integer into the `i64` range.
pub open spec fn sat64(x: int) -> int {
    if x > i64::MAX as int {
        i64::MAX as int
    } else if x < i64::MIN as int {
        i64::MIN as int
    } else {
        x
    }
}

/// Saturation of a mathematical integer into an `i64` value.
pub open spec fn sat_i64(x: int) -> i64 {
    sat64(x) as i64
}

/// Division truncating toward zero (the rounding of Rust's `/`),
/// for a positive divisor.
pub open spec fn tdiv(n: int, d: int) -> int {
    if n >= 0 {
        n / d
    } else {
        -((-n) / d)
    }
}

/// Division truncating toward zero, for any nonzero divisor.
pub open spec fn tdiv_any(n: int, d: int) -> int {
    if d >= 0 {
        tdiv(n, d)
    } else {
        -tdiv(n, -d)
    }
}

/// Fixed-point product: `a * b / UNIT`, truncated toward zero, saturated.
pub open spec fn spec_fmul(a: int, b: int) -> int {
    sat64(tdiv(a * b, UNIT as int))
}

/// Fixed-point quotient: `a * UNIT / b`, truncated toward zero, saturated.
pub open spec fn spec_fdiv(a: int, b: int) -> int {
    sat64(tdiv_any(a * (UNIT as int), b))
}

pub open spec fn spec_clamp(x: int, lo: int, hi: int) -> int {
    if x < lo {
        lo
    } else if x > hi {
        hi
    } else {
        x
    }
}

pub open spec fn spec_abs(x: int) -> int {
    if x >= 0 {
        x
    } else {
        -x
    }
}

/// `r` is the integer square root of `n`.
pub open spec fn is_isqrt(r: int, n: int) -> bool {
    0 <= r && r * r <= n && n < (r + 1) * (r + 1)
}

/// The integer square root, as a total spec-level function.
pub open spec fn isqrt_spec(n: int) -> int {
    choose|r: int| is_isqrt(r, n)
}

/// An integer square root exists for every nonnegative integer, so
/// [`isqrt_spec`] satisfies its defining property there.
pub proof fn lemma_isqrt_exists(n: int)
    requires
        n >= 0,
    ensures
        is_isqrt(isqrt_spec(n), n),
    decreases n,
{
    if n == 0 {
        assert(is_isqrt(0, 0));
    } else {
        lemma_isqrt_exists(n - 1);
        let r = isqrt_spec(n - 1);
        if n < (r + 1) * (r + 1) {
            assert(is_isqrt(r, n));
        } else {
            assert(n == (r + 1) * (r + 1));
            assert((r + 1) * (r + 1) < (r + 2) * (r + 2)) by (nonlinear_arith)
                requires r >= 0;
            assert(is_isqrt(r + 1, n));
        }
    }
}

/// The integer square root is unique.
pub proof fn lemma_isqrt_unique(a: int, b: int, n: int)
    requires
        is_isqrt(a, n),
        is_isqrt(b, n),
    ensures
        a == b,
{
    assert(a == b) by (nonlinear_arith)
        requires
            0 <= a && a * a <= n && n < (a + 1) * (a + 1),
            0 <= b && b * b <= n && n < (b + 1) * (b + 1);
}

/// Saturating cast of a 128-bit intermediate back into `i64`.
pub(crate) fn sat_cast(x: i128) -> (r: i64)
    ensures
        r as int == sat64(x as int),
{
    if x > i64::MAX as i128 {
        i64::MAX
    } else if x < i64::MIN as i128 {
        i64::MIN
    } else {
        x as i64
    }
}

/// Truncating division of a 128-bit intermediate by a positive divisor.
pub(crate) fn tdiv_i128(n: i128, d: i128) -> (r: i128)
    requires
        d > 0,
        n > i128::MIN,
    ensures
        r as int == tdiv(n as int, d as int),
        spec_abs(r as int) <= spec_abs(n as int),
{
    if n >= 0 {
        let q: u128 = (n as u128) / (d as u128);
        assert(q <= n as u128) by (nonlinear_arith)
            requires q == (n as u128) / (d as u128), d as u128 >= 1;
        q as i128
    } else {
        let m: u128 = ((-n) as u128) / (d as u128);
        assert(m <= (-n) as u128) by (nonlinear_arith)
            requires m == ((-n) as u128) / (d as u128), d as u128 >= 1;
        -(m as i128)
    }
}

/// Saturating addition.
pub fn fx_add(a: i64, b: i64) -> (r: i64)
    ensures
        r as int == sat64(a + b),
{
    sat_cast(a as i128 + b as i128)
}

/// Saturating subtraction.
pub fn fx_sub(a: i64, b: i64) -> (r: i64)
    ensures
        r as int == sat64(a - b),
{
    sat_cast(a as i128 - b as i128)
}

/// Saturating negation.
pub fn fx_neg(a: i64) -> (r: i64)
    ensures
        r as int == sat64(-a),
{
    sat_cast(-(a as i128))
}

/// Saturating absolute value.
pub fn fx_abs(a: i64) -> (r: i64)
    ensures
        r as int == sat64(spec_abs(a as int)),
{
    if a >= 0 {
        a
    } else {
        fx_neg(a)
    }
}

/// Products of two `i64` values fit in `i128`.
pub(crate) proof fn lemma_i64_product_fits(a: int, b: int)
    requires
        i64::MIN <= a <= i64::MAX,
        i64::MIN <= b <= i64::MAX,
    ensures
        i128::MIN < a * b <= i128::MAX,
{
    assert(i128::MIN < a * b <= i128::MAX) by (nonlinear_arith)
        requires
            -0x8000_0000_0000_0000 <= a <= 0x7fff_ffff_ffff_ffff,
            -0x8000_0000_0000_0000 <= b <= 0x7fff_ffff_ffff_ffff;
}

/// Fixed-point multiplication: `a * b / UNIT`, saturated.
pub fn fx_mul(a: i64, b: i64) -> (r: i64)
    ensures
        r as int == spec_fmul(a as int, b as int),
{
    proof {
        lemma_i64_product_fits(a as int, b as int);
    }
    let p: i128 = (a as i128) * (b as i128);
    sat_cast(tdiv_i128(p, UNIT as i128))
}

/// Fixed-point division: `a * UNIT / b`, saturated.
pub fn fx_div(a: i64, b: i64) -> (r: i64)
    requires
        b != 0,
    ensures
        r as int == spec_fdiv(a as int, b as int),
{
    proof {
        lemma_i64_product_fits(a as int, UNIT as int);
    }
    let p: i128 = (a as i128) * (UNIT as i128);
    if b > 0 {
        sat_cast(tdiv_i128(p, b as i128))
    } else {
        let q = tdiv_i128(p, -(b as i128));
        sat_cast(-q)
    }
}

/// The larger of two scalars.
pub fn fx_max(a: i64, b: i64) -> (r: i64)
    ensures
        r == if a >= b { a } else { b },
{
    if a >= b {
        a
    } else {
        b
    }
}

/// Clamp into a closed range.
pub fn fx_clamp(x: i64, lo: i64, hi: i64) -> (r: i64)
    requires
        lo <= hi,
    ensures
        r as int == spec_clamp(x as int, lo as int, hi as int),
{
    if x < lo {
        lo
    } else if x > hi {
        hi
    } else {
        x
    }
}

/// Clamp the magnitude: the result lies in `[-m, m]`.
pub fn fx_clamp_abs(x: i64, m: i64) -> (r: i64)
    requires
        m >= 0,
    ensures
        r as int == spec_clamp(x as int, -(m as int), m as int),
{
    fx_clamp(x, fx_neg(m), m)
}

/// Truncation toward zero never grows the magnitude of the quotient:
/// `|tdiv(n, d)| * d <= |n|`.
pub proof fn lemma_tdiv_mag(n: int, d: int)
    requires
        d > 0,
    ensures
        spec_abs(tdiv(n, d)) * d <= spec_abs(n),
        0 <= spec_abs(tdiv(n, d)),
{
    if n >= 0 {
        vstd::arithmetic::div_mod::lemma_fundamental_div_mod(n, d);
        vstd::arithmetic::div_mod::lemma_mod_division_less_than_divisor(n, d);
        vstd::arithmetic::div_mod::lemma_div_pos_is_pos(n, d);
        assert((n / d) * d <= n) by (nonlinear_arith)
            requires n == d * (n / d) + n % d, n % d >= 0;
    } else {
        vstd::arithmetic::div_mod::lemma_fundamental_div_mod(-n, d);
        vstd::arithmetic::div_mod::lemma_mod_division_less_than_divisor(-n, d);
        vstd::arithmetic::div_mod::lemma_div_pos_is_pos(-n, d);
        assert(((-n) / d) * d <= -n) by (nonlinear_arith)
            requires -n == d * ((-n) / d) + (-n) % d, (-n) % d >= 0;
    }
}

/// `a * b / d`, truncated toward zero, saturated.
pub fn fx_muldiv(a: i64, b: i64, d: i64) -> (r: i64)
    requires
        d > 0,
    ensures
        r as int == sat64(tdiv(a * b, d as int)),
{
    proof {
        lemma_i64_product_fits(a as int, b as int);
    }
    let p: i128 = (a as i128) * (b as i128);
    sat_cast(tdiv_i128(p, d as i128))
}

/// `a * b * c / d`, truncated toward zero, saturated; the three factors
/// must be small enough that the product fits a 128-bit intermediate.
pub fn fx_muldiv3(a: i64, b: i64, c: i64, d: i64) -> (r: i64)
    requires
        d > 0,
        spec_abs(a as int) <= 0x100_0000_0000,
        spec_abs(b as int) <= 0x100_0000_0000,
        spec_abs(c as int) <= 0x100_0000_0000,
    ensures
        r as int == sat64(tdiv(a * b * c, d as int)),
{
    proof {
        let ab = (a as int) * (b as int);
        assert(-0x1_0000_0000_0000_0000_0000 <= ab <= 0x1_0000_0000_0000_0000_0000)
            by (nonlinear_arith)
            requires
                ab == (a as int) * (b as int),
                -0x100_0000_0000 <= a as int <= 0x100_0000_0000,
                -0x100_0000_0000 <= b as int <= 0x100_0000_0000;
        assert(i128::MIN < ab * (c as int) <= i128::MAX) by (nonlinear_arith)
            requires
                -0x1_0000_0000_0000_0000_0000 <= ab <= 0x1_0000_0000_0000_0000_0000,
                -0x100_0000_0000 <= c as int <= 0x100_0000_0000;
    }
    let p: i128 = (a as i128) * (b as i128) * (c as i128);
    sat_cast(tdiv_i128(p, d as i128))
}

/// Integer square root of a 128-bit value, by bisection.
pub fn isqrt_u128(n: u128) -> (r: u128)
    ensures
        is_isqrt(r as int, n as int),
        r as int == isqrt_spec(n as int),
{
    let mut lo: u128 = 0;
    let mut hi: u128 = 0x1_0000_0000_0000_0000;
    proof {
        assert((0x1_0000_0000_0000_0000 as int) * (0x1_0000_0000_0000_0000 as int) > u128::MAX as int)
            by (nonlinear_arith);
    }
    while hi - lo > 1
        invariant
            lo < hi <= 0x1_0000_0000_0000_0000,
            (lo as int) * (lo as int) <= n as int,
            (n as int) < (hi as int) * (hi as int),
        decreases hi - lo,
    {
        let mid: u128 = lo + (hi - lo) / 2;
        assert(mid < 0x1_0000_0000_0000_0000);
        assert((mid as int) * (mid as int) <= u128::MAX as int) by (nonlinear_arith)
            requires mid as int <= 0xffff_ffff_ffff_ffff;
        let sq: u128 = mid * mid;
        if sq <= n {
            lo = mid;
        } else {
            hi = mid;
        }
    }
    proof {
        assert(is_isqrt(lo as int, n as int));
        lemma_isqrt_exists(n as int);
        lemma_isqrt_unique(lo as int, isqrt_spec(n as int), n as int);
    }
    lo
}

} // verus!
