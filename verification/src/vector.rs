//! Two-dimensional fixed-point vectors.
//!
//! Component arithmetic follows [`crate::fixed`]: saturating `i64`
//! operations over [`UNIT`]-scaled raw values.  Lengths are integer
//! square roots of the exact squared length, so `v_len` is pinned by
//! [`is_isqrt`].

use vstd::prelude::*;

use crate::fixed::{
    fx_neg, is_isqrt, isqrt_spec, lemma_isqrt_exists, lemma_isqrt_unique, sat64, sat_i64,
    spec_abs, spec_fmul, tdiv, isqrt_u128, UNIT,
};

verus! {

/// A point or direction in the plane, in [`UNIT`]-scaled raw values.
#[derive(Clone, Copy, Debug, PartialEq, Eq, Structural)]
pub struct Vec2 {
    pub x: i64,
    pub y: i64,
}

/// The squared Euclidean length, exact (unsaturated).
pub open spec fn len2(v: Vec2) -> int {
    (v.x as int) * (v.x as int) + (v.y as int) * (v.y as int)
}

pub open spec fn spec_v_add(a: Vec2, b: Vec2) -> Vec2 {
    Vec2 { x: sat_i64(a.x + b.x), y: sat_i64(a.y + b.y) }
}

pub open spec fn spec_v_sub(a: Vec2, b: Vec2) -> Vec2 {
    Vec2 { x: sat_i64(a.x - b.x), y: sat_i64(a.y - b.y) }
}

pub open spec fn spec_v_neg(a: Vec2) -> Vec2 {
    Vec2 { x: sat_i64(-a.x), y: sat_i64(-a.y) }
}

/// Counterclockwise quarter turn.
pub open spec fn spec_rot90(a: Vec2) -> Vec2 {
    Vec2 { x: sat_i64(-a.y), y: a.x }
}

/// Both components scaled by the fixed-point factor `s`.
pub open spec fn spec_v_scale(a: Vec2, s: int) -> Vec2 {
    Vec2 { x: sat_i64(spec_fmul(a.x as int, s)), y: sat_i64(spec_fmul(a.y as int, s)) }
}

/// The raw (unscaled) dot product `a.x * b.x + a.y * b.y`, exact.
pub open spec fn rawdot(a: Vec2, b: Vec2) -> int {
    (a.x as int) * (b.x as int) + (a.y as int) * (b.y as int)
}

/// Fixed-point dot product: the raw dot product scaled back by [`UNIT`].
pub open spec fn spec_v_dot(a: Vec2, b: Vec2) -> int {
    sat64(tdiv(rawdot(a, b), UNIT as int))
}

/// Euclidean length: the integer square root of [`len2`], saturated.
pub open spec fn spec_v_len(v: Vec2) -> int {
    sat64(isqrt_spec(len2(v)))
}

/// The zero vector.
pub fn v_zero() -> (r: Vec2)
    ensures
        r == (Vec2 { x: 0i64, y: 0i64 }),
{
    Vec2 { x: 0, y: 0 }
}

/// Component-wise saturating sum.
pub fn v_add(a: Vec2, b: Vec2) -> (r: Vec2)
    ensures
        r == spec_v_add(a, b),
{
    Vec2 { x: crate::fixed::fx_add(a.x, b.x), y: crate::fixed::fx_add(a.y, b.y) }
}

/// Component-wise saturating difference.
pub fn v_sub(a: Vec2, b: Vec2) -> (r: Vec2)
    ensures
        r == spec_v_sub(a, b),
{
    Vec2 { x: crate::fixed::fx_sub(a.x, b.x), y: crate::fixed::fx_sub(a.y, b.y) }
}

/// Component-wise saturating negation.
pub fn v_neg(a: Vec2) -> (r: Vec2)
    ensures
        r == spec_v_neg(a),
{
    Vec2 { x: fx_neg(a.x), y: fx_neg(a.y) }
}

/// Counterclockwise quarter turn.
pub fn rotate_90(a: Vec2) -> (r: Vec2)
    ensures
        r == spec_rot90(a),
{
    Vec2 { x: fx_neg(a.y), y: a.x }
}

/// Both components scaled by the fixed-point factor `s`.
pub fn v_scale(a: Vec2, s: i64) -> (r: Vec2)
    ensures
        r == spec_v_scale(a, s as int),
{
    Vec2 { x: crate::fixed::fx_mul(a.x, s), y: crate::fixed::fx_mul(a.y, s) }
}

/// Magnitude of a 128-bit value as unsigned.
fn abs_u128(x: i128) -> (r: u128)
    requires
        x > i128::MIN,
    ensures
        r as int == spec_abs(x as int),
{
    if x >= 0 {
        x as u128
    } else {
        (-x) as u128
    }
}

/// Saturating sum of two 128-bit intermediates into `i64`.
fn sat_cast_sum(p1: i128, p2: i128) -> (r: i64)
    ensures
        r as int == sat64(p1 + p2),
{
    if p1 >= 0 && p2 >= 0 {
        if p1 > i64::MAX as i128 || p2 > i64::MAX as i128 || p1 + p2 > i64::MAX as i128 {
            i64::MAX
        } else {
            (p1 + p2) as i64
        }
    } else if p1 <= 0 && p2 <= 0 {
        if p1 < i64::MIN as i128 || p2 < i64::MIN as i128 || p1 + p2 < i64::MIN as i128 {
            i64::MIN
        } else {
            (p1 + p2) as i64
        }
    } else {
        // Opposite signs: the exact sum fits in `i128`.
        let s = p1 + p2;
        if s > i64::MAX as i128 {
            i64::MAX
        } else if s < i64::MIN as i128 {
            i64::MIN
        } else {
            s as i64
        }
    }
}

/// The raw dot product, saturated into `i64`.
pub fn v_rawdot(a: Vec2, b: Vec2) -> (r: i64)
    ensures
        r as int == sat64(rawdot(a, b)),
{
    proof {
        crate::fixed::lemma_i64_product_fits(a.x as int, b.x as int);
        crate::fixed::lemma_i64_product_fits(a.y as int, b.y as int);
    }
    let px: i128 = (a.x as i128) * (b.x as i128);
    let py: i128 = (a.y as i128) * (b.y as i128);
    sat_cast_sum(px, py)
}

/// Fixed-point dot product.
pub fn v_dot(a: Vec2, b: Vec2) -> (r: i64)
    requires
        spec_abs(a.x as int) <= 0x4000_0000_0000_0000,
        spec_abs(a.y as int) <= 0x4000_0000_0000_0000,
        spec_abs(b.x as int) <= 0x4000_0000_0000_0000,
        spec_abs(b.y as int) <= 0x4000_0000_0000_0000,
    ensures
        r as int == spec_v_dot(a, b),
{
    proof {
        assert((a.x as int) * (b.x as int) <= 0x4000_0000_0000_0000 * 0x4000_0000_0000_0000
            && (a.x as int) * (b.x as int) >= -(0x4000_0000_0000_0000 * 0x4000_0000_0000_0000))
            by (nonlinear_arith)
            requires
                spec_abs(a.x as int) <= 0x4000_0000_0000_0000,
                spec_abs(b.x as int) <= 0x4000_0000_0000_0000;
        assert((a.y as int) * (b.y as int) <= 0x4000_0000_0000_0000 * 0x4000_0000_0000_0000
            && (a.y as int) * (b.y as int) >= -(0x4000_0000_0000_0000 * 0x4000_0000_0000_0000))
            by (nonlinear_arith)
            requires
                spec_abs(a.y as int) <= 0x4000_0000_0000_0000,
                spec_abs(b.y as int) <= 0x4000_0000_0000_0000;
    }
    let px: i128 = (a.x as i128) * (b.x as i128);
    let py: i128 = (a.y as i128) * (b.y as i128);
    let s: i128 = px + py;
    let q = crate::fixed::tdiv_i128(s, UNIT as i128);
    crate::fixed::sat_cast(q)
}

/// Euclidean length.
pub fn v_len(v: Vec2) -> (r: i64)
    ensures
        r as int == spec_v_len(v),
        len2(v) <= (i64::MAX as int) * (i64::MAX as int) ==> is_isqrt(r as int, len2(v)),
{
    proof {
        crate::fixed::lemma_i64_product_fits(v.x as int, v.x as int);
        crate::fixed::lemma_i64_product_fits(v.y as int, v.y as int);
    }
    let ax: u128 = abs_u128(v.x as i128);
    let ay: u128 = abs_u128(v.y as i128);
    proof {
        assert(ax * ax == (v.x as int) * (v.x as int) && ax * ax <= 0x8000_0000_0000_0000 * 0x8000_0000_0000_0000)
            by (nonlinear_arith)
            requires
                ax as int == spec_abs(v.x as int),
                v.x as int >= -0x8000_0000_0000_0000 && v.x as int <= 0x7fff_ffff_ffff_ffff;
        assert(ay * ay == (v.y as int) * (v.y as int) && ay * ay <= 0x8000_0000_0000_0000 * 0x8000_0000_0000_0000)
            by (nonlinear_arith)
            requires
                ay as int == spec_abs(v.y as int),
                v.y as int >= -0x8000_0000_0000_0000 && v.y as int <= 0x7fff_ffff_ffff_ffff;
    }
    let d: u128 = ax * ax + ay * ay;
    let s: u128 = isqrt_u128(d);
    proof {
        lemma_isqrt_exists(len2(v));
        lemma_isqrt_unique(s as int, isqrt_spec(len2(v)), len2(v));
        if len2(v) <= (i64::MAX as int) * (i64::MAX as int) {
            assert(s as int <= i64::MAX as int) by (nonlinear_arith)
                requires
                    is_isqrt(s as int, len2(v)),
                    len2(v) <= (i64::MAX as int) * (i64::MAX as int);
        }
    }
    if s > i64::MAX as u128 {
        i64::MAX
    } else {
        s as i64
    }
}

/// The direction of `v` scaled to one unit of length, or zero for the
/// zero vector.  Components are truncated toward zero, so each has
/// magnitude at most [`UNIT`].
pub open spec fn spec_normalize(v: Vec2) -> Vec2 {
    if v.x == 0 && v.y == 0 {
        Vec2 { x: 0i64, y: 0i64 }
    } else {
        let l = isqrt_spec(len2(v));
        Vec2 { x: sat_i64(tdiv(v.x * UNIT, l)), y: sat_i64(tdiv(v.y * UNIT, l)) }
    }
}

/// A magnitude at most the divisor keeps the scaled quotient at most
/// one unit.
proof fn lemma_tdiv_le_unit(a: int, l: int)
    requires
        0 <= a <= l,
        l >= 1,
    ensures
        0 <= (a * (UNIT as int)) / l <= UNIT as int,
{
    assert(0 <= a * (UNIT as int) <= l * (UNIT as int)) by (nonlinear_arith)
        requires 0 <= a <= l;
    vstd::arithmetic::div_mod::lemma_div_pos_is_pos(a * (UNIT as int), l);
    vstd::arithmetic::div_mod::lemma_div_is_ordered(a * (UNIT as int), l * (UNIT as int), l);
    vstd::arithmetic::div_mod::lemma_div_multiples_vanish(UNIT as int, l);
}

/// Each component's magnitude is bounded by the full length.
pub proof fn lemma_comp_le_len(v: Vec2, l: int)
    requires
        is_isqrt(l, len2(v)),
    ensures
        spec_abs(v.x as int) <= l,
        spec_abs(v.y as int) <= l,
{
    let ax = spec_abs(v.x as int);
    let ay = spec_abs(v.y as int);
    assert(ax * ax <= len2(v) && len2(v) < (ax + ay + 1) * (ax + ay + 1) && ay * ay <= len2(v))
        by (nonlinear_arith)
        requires
            ax == spec_abs(v.x as int),
            ay == spec_abs(v.y as int),
            (v.x >= 0 ==> ax == v.x as int) && (v.x < 0 ==> ax == -(v.x as int)),
            (v.y >= 0 ==> ay == v.y as int) && (v.y < 0 ==> ay == -(v.y as int));
    assert(ax <= l && ay <= l) by (nonlinear_arith)
        requires
            ax >= 0,
            ay >= 0,
            ax * ax <= len2(v),
            ay * ay <= len2(v),
            0 <= l,
            len2(v) < (l + 1) * (l + 1);
}

/// The direction of `v` scaled to one unit of length, or zero.
pub fn normalize_or_zero(v: Vec2) -> (r: Vec2)
    ensures
        r == spec_normalize(v),
        spec_abs(r.x as int) <= UNIT as int,
        spec_abs(r.y as int) <= UNIT as int,
{
    if v.x == 0 && v.y == 0 {
        Vec2 { x: 0, y: 0 }
    } else {
        proof {
            crate::fixed::lemma_i64_product_fits(v.x as int, v.x as int);
            crate::fixed::lemma_i64_product_fits(v.y as int, v.y as int);
        }
        let ax: u128 = abs_u128(v.x as i128);
        let ay: u128 = abs_u128(v.y as i128);
        proof {
            assert(ax * ax == (v.x as int) * (v.x as int) && ax * ax <= 0x8000_0000_0000_0000
                * 0x8000_0000_0000_0000) by (nonlinear_arith)
                requires
                    ax as int == spec_abs(v.x as int),
                    v.x as int >= -0x8000_0000_0000_0000 && v.x as int <= 0x7fff_ffff_ffff_ffff;
            assert(ay * ay == (v.y as int) * (v.y as int) && ay * ay <= 0x8000_0000_0000_0000
                * 0x8000_0000_0000_0000) by (nonlinear_arith)
                requires
                    ay as int == spec_abs(v.y as int),
                    v.y as int >= -0x8000_0000_0000_0000 && v.y as int <= 0x7fff_ffff_ffff_ffff;
        }
        let d: u128 = ax * ax + ay * ay;
        let l: u128 = isqrt_u128(d);
        proof {
            lemma_isqrt_exists(len2(v));
            lemma_isqrt_unique(l as int, isqrt_spec(len2(v)), len2(v));
            lemma_comp_le_len(v, l as int);
            assert(d as int >= 1) by (nonlinear_arith)
                requires
                    d as int == (ax as int) * (ax as int) + (ay as int) * (ay as int),
                    ax as int >= 0,
                    ay as int >= 0,
                    ax as int >= 1 || ay as int >= 1;
            let ghost li = l as int;
            assert(li >= 1) by (nonlinear_arith)
                requires
                    (d as int) < (li + 1) * (li + 1),
                    li >= 0,
                    d as int >= 1;
            lemma_tdiv_le_unit(ax as int, l as int);
            lemma_tdiv_le_unit(ay as int, l as int);
            assert((ax as int) * (UNIT as int) <= 0x8000_0000_0000_0000 * 1000
                && (ay as int) * (UNIT as int) <= 0x8000_0000_0000_0000 * 1000)
                by (nonlinear_arith)
                requires
                    0 <= ax as int <= 0x8000_0000_0000_0000,
                    0 <= ay as int <= 0x8000_0000_0000_0000;
        }
        let nx: u128 = ax * (UNIT as u128) / l;
        let ny: u128 = ay * (UNIT as u128) / l;
        let rx: i64 = if v.x >= 0 {
            nx as i64
        } else {
            -(nx as i64)
        };
        let ry: i64 = if v.y >= 0 {
            ny as i64
        } else {
            -(ny as i64)
        };
        Vec2 { x: rx, y: ry }
    }
}

/// A normalized nonzero vector keeps at least half a unit of length:
/// its larger component has magnitude at least `UNIT / 2`.
pub proof fn lemma_normalize_min_norm(v: Vec2)
    requires
        v.x != 0 || v.y != 0,
    ensures
        len2(spec_normalize(v)) >= 250_000,
{
    let ax = spec_abs(v.x as int);
    let ay = spec_abs(v.y as int);
    let mx = if ax >= ay {
        ax
    } else {
        ay
    };
    assert(len2(v) >= 1 && len2(v) <= 2 * (mx * mx) && mx >= 1) by (nonlinear_arith)
        requires
            len2(v) == (v.x as int) * (v.x as int) + (v.y as int) * (v.y as int),
            (v.x >= 0 ==> ax == v.x as int) && (v.x < 0 ==> ax == -(v.x as int)),
            (v.y >= 0 ==> ay == v.y as int) && (v.y < 0 ==> ay == -(v.y as int)),
            (ax >= ay ==> mx == ax) && (ax < ay ==> mx == ay),
            v.x != 0 || v.y != 0;
    lemma_isqrt_exists(len2(v));
    let l = isqrt_spec(len2(v));
    assert(1 <= l && l < 2 * mx) by (nonlinear_arith)
        requires
            0 <= l,
            l * l <= len2(v),
            len2(v) < (l + 1) * (l + 1),
            1 <= len2(v),
            len2(v) <= 2 * (mx * mx),
            mx >= 1;
    assert(mx * (UNIT as int) >= 500 * l + 500) by (nonlinear_arith)
        requires 2 * mx >= l + 1;
    assert((mx * (UNIT as int)) / l >= 500) by {
        vstd::arithmetic::div_mod::lemma_div_multiples_vanish(500, l);
        vstd::arithmetic::div_mod::lemma_div_is_ordered(500 * l, mx * (UNIT as int), l);
        assert(500 * l <= mx * (UNIT as int));
        assert((500 * l) / l == 500) by {
            assert(500 * l == l * 500);
        };
    };
    let n = spec_normalize(v);
    let big = if ax >= ay {
        spec_abs(n.x as int)
    } else {
        spec_abs(n.y as int)
    };
    lemma_comp_le_len(v, l);
    lemma_tdiv_le_unit(mx, l);
    assert(big == (mx * (UNIT as int)) / l);
    assert(len2(n) >= big * big) by (nonlinear_arith)
        requires
            len2(n) == (n.x as int) * (n.x as int) + (n.y as int) * (n.y as int),
            (big == spec_abs(n.x as int) && (n.x >= 0 ==> big == n.x as int) && (n.x < 0 ==> big
                == -(n.x as int))) || (big == spec_abs(n.y as int) && (n.y >= 0 ==> big == n.y
                as int) && (n.y < 0 ==> big == -(n.y as int)));
    assert(big * big >= 250_000) by (nonlinear_arith)
        requires big >= 500;
}

/// `v` scaled by the ratio `m / len(v)`: the first stage of
/// [`clamp_len`].
pub open spec fn spec_scale_to(v: Vec2, m: int) -> Vec2 {
    let l = isqrt_spec(len2(v));
    Vec2 { x: sat_i64(tdiv(v.x * m, l)), y: sat_i64(tdiv(v.y * m, l)) }
}

/// `v` scaled by the ratio `m / len(v)`, for a nonzero `v`.
pub fn v_scale_to(v: Vec2, m: i64) -> (r: Vec2)
    requires
        m >= 0,
        len2(v) >= 1,
        spec_abs(v.x as int) <= 0x4000_0000_0000_0000,
        spec_abs(v.y as int) <= 0x4000_0000_0000_0000,
    ensures
        r == spec_scale_to(v, m as int),
{
    proof {
        assert(len2(v) <= (i64::MAX as int) * (i64::MAX as int)) by (nonlinear_arith)
            requires
                len2(v) == (v.x as int) * (v.x as int) + (v.y as int) * (v.y as int),
                -0x4000_0000_0000_0000 <= v.x as int <= 0x4000_0000_0000_0000,
                -0x4000_0000_0000_0000 <= v.y as int <= 0x4000_0000_0000_0000;
    }
    let l = v_len(v);
    proof {
        lemma_isqrt_exists(len2(v));
        lemma_isqrt_unique(l as int, isqrt_spec(len2(v)), len2(v));
        assert(l as int >= 1) by (nonlinear_arith)
            requires
                len2(v) < ((l as int) + 1) * ((l as int) + 1),
                l as int >= 0,
                len2(v) >= 1;
        crate::fixed::lemma_i64_product_fits(v.x as int, m as int);
        crate::fixed::lemma_i64_product_fits(v.y as int, m as int);
        crate::fixed::lemma_tdiv_mag((v.x as int) * (m as int), l as int);
        crate::fixed::lemma_tdiv_mag((v.y as int) * (m as int), l as int);
        lemma_comp_le_len(v, l as int);
        assert(spec_abs((v.x as int) * (m as int)) == spec_abs(v.x as int) * spec_abs(m as int))
            by (nonlinear_arith);
        assert(spec_abs((v.y as int) * (m as int)) == spec_abs(v.y as int) * spec_abs(m as int))
            by (nonlinear_arith);
        assert(spec_abs(tdiv((v.x as int) * (m as int), l as int)) <= m as int)
            by (nonlinear_arith)
            requires
                spec_abs(tdiv((v.x as int) * (m as int), l as int)) * (l as int) <= spec_abs(
                    (v.x as int) * (m as int)),
                spec_abs((v.x as int) * (m as int)) == spec_abs(v.x as int) * spec_abs(m as int),
                spec_abs(v.x as int) <= l as int,
                0 <= m as int,
                l as int >= 1,
                0 <= spec_abs(tdiv((v.x as int) * (m as int), l as int));
        assert(spec_abs(tdiv((v.y as int) * (m as int), l as int)) <= m as int)
            by (nonlinear_arith)
            requires
                spec_abs(tdiv((v.y as int) * (m as int), l as int)) * (l as int) <= spec_abs(
                    (v.y as int) * (m as int)),
                spec_abs((v.y as int) * (m as int)) == spec_abs(v.y as int) * spec_abs(m as int),
                spec_abs(v.y as int) <= l as int,
                0 <= m as int,
                l as int >= 1,
                0 <= spec_abs(tdiv((v.y as int) * (m as int), l as int));
    }
    let px: i128 = (v.x as i128) * (m as i128);
    let py: i128 = (v.y as i128) * (m as i128);
    let qx = crate::fixed::tdiv_i128(px, l as i128);
    let qy = crate::fixed::tdiv_i128(py, l as i128);
    Vec2 { x: qx as i64, y: qy as i64 }
}

/// Both components divided by the fixed-point scalar `s`.
pub open spec fn spec_v_fdiv(a: Vec2, s: int) -> Vec2 {
    Vec2 {
        x: sat_i64(crate::fixed::spec_fdiv(a.x as int, s)),
        y: sat_i64(crate::fixed::spec_fdiv(a.y as int, s)),
    }
}

/// Both components divided by the fixed-point scalar `s`.
pub fn v_fdiv(a: Vec2, s: i64) -> (r: Vec2)
    requires
        s != 0,
    ensures
        r == spec_v_fdiv(a, s as int),
{
    Vec2 { x: crate::fixed::fx_div(a.x, s), y: crate::fixed::fx_div(a.y, s) }
}

/// Both components clamped into `[-m, m]`.
pub open spec fn spec_v_clamp_box(a: Vec2, m: int) -> Vec2 {
    Vec2 {
        x: crate::fixed::spec_clamp(a.x as int, -m, m) as i64,
        y: crate::fixed::spec_clamp(a.y as int, -m, m) as i64,
    }
}

/// Both components clamped into `[-m, m]`.
pub fn v_clamp_box(a: Vec2, m: i64) -> (r: Vec2)
    requires
        m >= 0,
    ensures
        r == spec_v_clamp_box(a, m as int),
        spec_abs(r.x as int) <= m,
        spec_abs(r.y as int) <= m,
{
    Vec2 {
        x: crate::fixed::fx_clamp_abs(a.x, m),
        y: crate::fixed::fx_clamp_abs(a.y, m),
    }
}

/// A short vector has short components: when the (saturated) length
/// is at most `m`, each component's magnitude is at most `m`.
pub proof fn lemma_comps_le_len(v: Vec2, m: int)
    requires
        0 <= m,
        m < i64::MAX as int,
        spec_v_len(v) <= m,
    ensures
        spec_abs(v.x as int) <= m,
        spec_abs(v.y as int) <= m,
{
    assert(len2(v) >= 0) by (nonlinear_arith)
        requires len2(v) == (v.x as int) * (v.x as int) + (v.y as int) * (v.y as int);
    lemma_isqrt_exists(len2(v));
    let l = isqrt_spec(len2(v));
    assert(l <= m);
    assert(spec_abs(v.x as int) <= m && spec_abs(v.y as int) <= m) by (nonlinear_arith)
        requires
            len2(v) == (v.x as int) * (v.x as int) + (v.y as int) * (v.y as int),
            len2(v) < (l + 1) * (l + 1),
            0 <= l <= m;
}

/// A squared length at most `m * m` bounds the length by `m`.
pub proof fn lemma_len_le(v: Vec2, m: int)
    requires
        0 <= m,
        len2(v) <= m * m,
    ensures
        spec_v_len(v) <= m,
{
    assert(len2(v) >= 0) by (nonlinear_arith)
        requires len2(v) == (v.x as int) * (v.x as int) + (v.y as int) * (v.y as int);
    lemma_isqrt_exists(len2(v));
    assert(isqrt_spec(len2(v)) <= m) by (nonlinear_arith)
        requires
            0 <= isqrt_spec(len2(v)),
            isqrt_spec(len2(v)) * isqrt_spec(len2(v)) <= len2(v),
            len2(v) <= m * m,
            0 <= m;
}

/// Whether the squared length exceeds `m * m`.
fn len2_gt(v: Vec2, m: i64) -> (b: bool)
    requires
        m >= 0,
    ensures
        b == (len2(v) > (m as int) * (m as int)),
{
    proof {
        crate::fixed::lemma_i64_product_fits(v.x as int, v.x as int);
        crate::fixed::lemma_i64_product_fits(v.y as int, v.y as int);
        crate::fixed::lemma_i64_product_fits(m as int, m as int);
    }
    let ax: u128 = abs_u128(v.x as i128);
    let ay: u128 = abs_u128(v.y as i128);
    proof {
        assert(ax * ax == (v.x as int) * (v.x as int) && ax * ax <= 0x8000_0000_0000_0000
            * 0x8000_0000_0000_0000) by (nonlinear_arith)
            requires
                ax as int == spec_abs(v.x as int),
                v.x as int >= -0x8000_0000_0000_0000 && v.x as int <= 0x7fff_ffff_ffff_ffff;
        assert(ay * ay == (v.y as int) * (v.y as int) && ay * ay <= 0x8000_0000_0000_0000
            * 0x8000_0000_0000_0000) by (nonlinear_arith)
            requires
                ay as int == spec_abs(v.y as int),
                v.y as int >= -0x8000_0000_0000_0000 && v.y as int <= 0x7fff_ffff_ffff_ffff;
    }
    let d: u128 = ax * ax + ay * ay;
    let mm: u128 = (m as u128) * (m as u128);
    d > mm
}

/// The vector clamped to length at most `m`: unchanged when already
/// short enough, otherwise scaled down and then pulled into the closed
/// disc of radius `m` one raw increment at a time, so the result's
/// length provably never exceeds `m`.
pub fn clamp_len(v: Vec2, m: i64) -> (r: Vec2)
    requires
        m >= 0,
        spec_abs(v.x as int) <= 0x4000_0000_0000_0000,
        spec_abs(v.y as int) <= 0x4000_0000_0000_0000,
    ensures
        len2(r) <= (m as int) * (m as int) || r == v,
        spec_v_len(v) <= m as int ==> r == v,
        spec_v_len(v) > m as int ==> len2(r) <= (m as int) * (m as int),
        spec_v_len(v) > m as int && len2(spec_scale_to(v, m as int)) <= (m as int) * (m as int)
            ==> r == spec_scale_to(v, m as int),
{
    let l = v_len(v);
    proof {
        assert(len2(v) <= (i64::MAX as int) * (i64::MAX as int)) by (nonlinear_arith)
            requires
                len2(v) == (v.x as int) * (v.x as int) + (v.y as int) * (v.y as int),
                -0x4000_0000_0000_0000 <= v.x as int <= 0x4000_0000_0000_0000,
                -0x4000_0000_0000_0000 <= v.y as int <= 0x4000_0000_0000_0000;
        lemma_isqrt_exists(len2(v));
        lemma_isqrt_unique(l as int, isqrt_spec(len2(v)), len2(v));
        assert(l as int == isqrt_spec(len2(v)));
    }
    if l <= m {
        v
    } else {
        proof {
            lemma_isqrt_exists(len2(v));
            lemma_comp_le_len(v, isqrt_spec(len2(v)));
            crate::fixed::lemma_i64_product_fits(v.x as int, m as int);
            crate::fixed::lemma_i64_product_fits(v.y as int, m as int);
        }
        let px: i128 = (v.x as i128) * (m as i128);
        let py: i128 = (v.y as i128) * (m as i128);
        let qx = crate::fixed::tdiv_i128(px, l as i128);
        let qy = crate::fixed::tdiv_i128(py, l as i128);
        proof {
            crate::fixed::lemma_tdiv_mag((v.x as int) * (m as int), l as int);
            crate::fixed::lemma_tdiv_mag((v.y as int) * (m as int), l as int);
            assert(spec_abs((v.x as int) * (m as int)) == spec_abs(v.x as int) * spec_abs(m as int))
                by (nonlinear_arith);
            assert(spec_abs((v.y as int) * (m as int)) == spec_abs(v.y as int) * spec_abs(m as int))
                by (nonlinear_arith);
            assert(spec_abs(tdiv((v.x as int) * (m as int), l as int)) <= m as int)
                by (nonlinear_arith)
                requires
                    spec_abs(tdiv((v.x as int) * (m as int), l as int)) * (l as int) <= spec_abs(
                        (v.x as int) * (m as int)),
                    spec_abs((v.x as int) * (m as int)) == spec_abs(v.x as int) * spec_abs(
                        m as int),
                    spec_abs(v.x as int) <= l as int,
                    0 <= m as int,
                    l as int >= 1,
                    0 <= spec_abs(tdiv((v.x as int) * (m as int), l as int));
            assert(spec_abs(tdiv((v.y as int) * (m as int), l as int)) <= m as int)
                by (nonlinear_arith)
                requires
                    spec_abs(tdiv((v.y as int) * (m as int), l as int)) * (l as int) <= spec_abs(
                        (v.y as int) * (m as int)),
                    spec_abs((v.y as int) * (m as int)) == spec_abs(v.y as int) * spec_abs(
                        m as int),
                    spec_abs(v.y as int) <= l as int,
                    0 <= m as int,
                    l as int >= 1,
                    0 <= spec_abs(tdiv((v.y as int) * (m as int), l as int));
        }
        let w = Vec2 { x: qx as i64, y: qy as i64 };
        let ghost w0 = w;
        let mut cur = w;
        proof {
            assert(len2(w) >= 0) by (nonlinear_arith)
                requires len2(w) == (w.x as int) * (w.x as int) + (w.y as int) * (w.y as int);
        }
        while len2_gt(cur, m)
            invariant
                m >= 0,
                spec_abs(cur.x as int) <= m as int,
                spec_abs(cur.y as int) <= m as int,
                len2(cur) >= 0,
                len2(w0) <= (m as int) * (m as int) ==> cur == w0,
            decreases len2(cur),
        {
            proof {
                assert(len2(cur) > 0) by (nonlinear_arith)
                    requires
                        len2(cur) > (m as int) * (m as int),
                        m as int >= 0,
                        len2(cur) == (cur.x as int) * (cur.x as int) + (cur.y as int) * (cur.y
                            as int);
            }
            let acx = if cur.x >= 0 {
                cur.x
            } else {
                -cur.x
            };
            let acy = if cur.y >= 0 {
                cur.y
            } else {
                -cur.y
            };
            proof {
                assert(!(cur.x == 0 && cur.y == 0)) by (nonlinear_arith)
                    requires
                        len2(cur) > 0,
                        len2(cur) == (cur.x as int) * (cur.x as int) + (cur.y as int) * (cur.y
                            as int);
            }
            let next = if acx >= acy {
                Vec2 { x: if cur.x > 0 { cur.x - 1 } else { cur.x + 1 }, y: cur.y }
            } else {
                Vec2 { x: cur.x, y: if cur.y > 0 { cur.y - 1 } else { cur.y + 1 } }
            };
            proof {
                assert(len2(next) >= 0) by (nonlinear_arith)
                    requires len2(next) == (next.x as int) * (next.x as int) + (next.y as int)
                        * (next.y as int);
                assert(len2(next) < len2(cur)) by (nonlinear_arith)
                    requires
                        len2(cur) == (cur.x as int) * (cur.x as int) + (cur.y as int) * (cur.y
                            as int),
                        len2(next) == (next.x as int) * (next.x as int) + (next.y as int) * (next.y
                            as int),
                        (if spec_abs(cur.x as int) >= spec_abs(cur.y as int) {
                            next.y == cur.y && ((cur.x > 0 && next.x == cur.x - 1) || (cur.x <= 0
                                && next.x == cur.x + 1)) && cur.x != 0
                        } else {
                            next.x == cur.x && ((cur.y > 0 && next.y == cur.y - 1) || (cur.y <= 0
                                && next.y == cur.y + 1)) && cur.y != 0
                        }),
                        (cur.x >= 0 ==> spec_abs(cur.x as int) == cur.x as int) && (cur.x < 0
                            ==> spec_abs(cur.x as int) == -(cur.x as int)),
                        (cur.y >= 0 ==> spec_abs(cur.y as int) == cur.y as int) && (cur.y < 0
                            ==> spec_abs(cur.y as int) == -(cur.y as int));
            }
            cur = next;
        }
        cur
    }
}

/// Scaling a vector inside the closed unit disc by a nonnegative
/// factor gives a vector no longer than the factor.
pub proof fn lemma_scale_in_disc(u: Vec2, s: int)
    requires
        len2(u) <= (UNIT as int) * (UNIT as int),
        0 <= s <= i64::MAX as int,
    ensures
        len2(spec_v_scale(u, s)) <= s * s,
{
    let un = UNIT as int;
    let tx = tdiv((u.x as int) * s, un);
    let ty = tdiv((u.y as int) * s, un);
    crate::fixed::lemma_tdiv_mag((u.x as int) * s, un);
    crate::fixed::lemma_tdiv_mag((u.y as int) * s, un);
    assert(tx * tx * (un * un) <= ((u.x as int) * s) * ((u.x as int) * s)) by (nonlinear_arith)
        requires
            spec_abs(tx) * un <= spec_abs((u.x as int) * s),
            0 <= spec_abs(tx),
            un > 0,
            (tx >= 0 ==> spec_abs(tx) == tx) && (tx < 0 ==> spec_abs(tx) == -tx),
            ((u.x as int) * s >= 0 ==> spec_abs((u.x as int) * s) == (u.x as int) * s) && ((u.x
                as int) * s < 0 ==> spec_abs((u.x as int) * s) == -((u.x as int) * s));
    assert(ty * ty * (un * un) <= ((u.y as int) * s) * ((u.y as int) * s)) by (nonlinear_arith)
        requires
            spec_abs(ty) * un <= spec_abs((u.y as int) * s),
            0 <= spec_abs(ty),
            un > 0,
            (ty >= 0 ==> spec_abs(ty) == ty) && (ty < 0 ==> spec_abs(ty) == -ty),
            ((u.y as int) * s >= 0 ==> spec_abs((u.y as int) * s) == (u.y as int) * s) && ((u.y
                as int) * s < 0 ==> spec_abs((u.y as int) * s) == -((u.y as int) * s));
    assert(((u.x as int) * s) * ((u.x as int) * s) + ((u.y as int) * s) * ((u.y as int) * s)
        <= (un * un) * (s * s)) by (nonlinear_arith)
        requires
            (u.x as int) * (u.x as int) + (u.y as int) * (u.y as int) <= un * un;
    assert(tx * tx + ty * ty <= s * s) by (nonlinear_arith)
        requires
            tx * tx * (un * un) <= ((u.x as int) * s) * ((u.x as int) * s),
            ty * ty * (un * un) <= ((u.y as int) * s) * ((u.y as int) * s),
            ((u.x as int) * s) * ((u.x as int) * s) + ((u.y as int) * s) * ((u.y as int) * s)
                <= (un * un) * (s * s),
            un > 0;
    assert(spec_abs(tx) <= s && spec_abs(ty) <= s) by (nonlinear_arith)
        requires
            tx * tx + ty * ty <= s * s,
            0 <= s,
            (tx >= 0 ==> spec_abs(tx) == tx) && (tx < 0 ==> spec_abs(tx) == -tx),
            (ty >= 0 ==> spec_abs(ty) == ty) && (ty < 0 ==> spec_abs(ty) == -ty);
    assert(spec_v_scale(u, s) == (Vec2 { x: tx as i64, y: ty as i64 }));
}

/// Lagrange's identity in the plane: the square of the dot product plus
/// the square of the cross product equals the product of the squared
/// lengths.
#[verifier::rlimit(50)]
pub proof fn lemma_lagrange(a: Vec2, b: Vec2)
    ensures
        rawdot(a, b) * rawdot(a, b) + ((a.x as int) * (b.y as int) - (a.y as int) * (b.x as int))
            * ((a.x as int) * (b.y as int) - (a.y as int) * (b.x as int)) == len2(a) * len2(b),
{
    let ax = a.x as int;
    let ay = a.y as int;
    let bx = b.x as int;
    let by = b.y as int;
    let p = ax * bx;
    let q = ay * by;
    let r = ax * by;
    let s = ay * bx;
    assert((p + q) * (p + q) == p * p + 2 * (p * q) + q * q) by (nonlinear_arith);
    assert((r - s) * (r - s) == r * r - 2 * (r * s) + s * s) by (nonlinear_arith);
    assert(p * q == r * s) by (nonlinear_arith)
        requires p == ax * bx, q == ay * by, r == ax * by, s == ay * bx;
    assert(p * p == (ax * ax) * (bx * bx)) by (nonlinear_arith)
        requires p == ax * bx;
    assert(q * q == (ay * ay) * (by * by)) by (nonlinear_arith)
        requires q == ay * by;
    assert(r * r == (ax * ax) * (by * by)) by (nonlinear_arith)
        requires r == ax * by;
    assert(s * s == (ay * ay) * (bx * bx)) by (nonlinear_arith)
        requires s == ay * bx;
    let a2x = ax * ax;
    let a2y = ay * ay;
    let b2x = bx * bx;
    let b2y = by * by;
    assert((a2x + a2y) * (b2x + b2y) == a2x * b2x + a2x * b2y + a2y * b2x + a2y * b2y)
        by (nonlinear_arith);
}

/// Triangle inequality for integer-square-root lengths: the length of a
/// sum exceeds the sum of the lengths by at most one raw increment.
pub proof fn lemma_triangle(a: Vec2, b: Vec2, la: int, lb: int, lab: int)
    requires
        is_isqrt(la, len2(a)),
        is_isqrt(lb, len2(b)),
        is_isqrt(lab, (a.x + b.x) * (a.x + b.x) + (a.y + b.y) * (a.y + b.y)),
    ensures
        lab <= la + lb + 1,
{
    let ax = a.x as int;
    let ay = a.y as int;
    let bx = b.x as int;
    let by = b.y as int;
    let d = rawdot(a, b);
    let s2 = (ax + bx) * (ax + bx) + (ay + by) * (ay + by);
    assert((ax + bx) * (ax + bx) + (ay + by) * (ay + by) == (ax * ax + ay * ay) + 2 * (ax * bx
        + ay * by) + (bx * bx + by * by)) by (nonlinear_arith);
    assert(s2 == len2(a) + 2 * d + len2(b));
    if d <= 0 {
        assert(s2 < (la + lb + 2) * (la + lb + 2)) by (nonlinear_arith)
            requires
                s2 == len2(a) + 2 * d + len2(b),
                d <= 0,
                0 <= la && len2(a) < (la + 1) * (la + 1),
                0 <= lb && len2(b) < (lb + 1) * (lb + 1);
    } else {
        lemma_lagrange(a, b);
        assert(d * d <= len2(a) * len2(b)) by (nonlinear_arith)
            requires
                d * d + (ax * by - ay * bx) * (ax * by - ay * bx) == len2(a) * len2(b);
        assert(d < (la + 1) * (lb + 1)) by (nonlinear_arith)
            requires
                d > 0,
                d * d <= len2(a) * len2(b),
                0 <= la && len2(a) < (la + 1) * (la + 1),
                0 <= lb && len2(b) < (lb + 1) * (lb + 1);
        assert(s2 < (la + lb + 2) * (la + lb + 2)) by (nonlinear_arith)
            requires
                s2 == len2(a) + 2 * d + len2(b),
                d < (la + 1) * (lb + 1),
                0 <= la && len2(a) < (la + 1) * (la + 1),
                0 <= lb && len2(b) < (lb + 1) * (lb + 1);
    }
    assert(lab <= la + lb + 1) by (nonlinear_arith)
        requires
            0 <= lab && lab * lab <= s2,
            s2 < (la + lb + 2) * (la + lb + 2),
            la >= 0,
            lb >= 0;
}

} // verus!
