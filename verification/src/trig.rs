//! Fixed-point trigonometry.
//!
//! The sine is a quarter-wave parabola sharpened by a quadratic blend;
//! the cosine is the sine shifted by a quarter turn; `atan` is a
//! rational approximation, and `v_arg`/`acos_raw` are assembled from it
//! by quadrant symmetry.  Every function has a closed-form spec mirror,
//! is exact on the four axis directions, and [`unit_vec`] clips its
//! result into the closed unit disc, so a direction vector never
//! exceeds one unit of length — the fact the arm's reach bound rests
//! on.

use vstd::prelude::*;

use crate::angle::{angle_wf, norm_angle, Angle, FULL_TURN, HALF_TURN, QUARTER_TURN};
use crate::fixed::{
    fx_muldiv, fx_muldiv3, fx_neg, isqrt_spec, lemma_isqrt_exists, lemma_isqrt_unique, spec_abs,
    tdiv, UNIT,
};
use crate::vector::{len2, Vec2};
use vstd::arithmetic::div_mod::{
    lemma_div_is_ordered, lemma_div_multiples_vanish, lemma_div_pos_is_pos,
    lemma_fundamental_div_mod, lemma_mod_add_multiples_vanish, lemma_small_mod,
};

verus! {

/// Sine of `x` raw angle units for `x` in `[0, HALF_TURN]`, scaled by
/// [`UNIT`]: a parabola through the half-turn's zeroes, blended with
/// its own square to cut the midband error to about a tenth of a
/// percent.
pub open spec fn sin_half(x: int) -> int {
    let y = tdiv(4 * x * (HALF_TURN - x) * UNIT, (HALF_TURN as int) * (HALF_TURN as int));
    tdiv(225 * y * y + 775 * y * UNIT, (UNIT as int) * (UNIT as int))
}

/// Sine over a whole turn: odd symmetry about the half turn.
pub open spec fn sin_full(x: int) -> int {
    if x <= HALF_TURN {
        sin_half(x)
    } else {
        -sin_half(x - HALF_TURN)
    }
}

/// Cosine over a whole turn: the sine advanced by a quarter turn.
pub open spec fn cos_full(x: int) -> int {
    sin_full(norm_angle(x + QUARTER_TURN))
}

proof fn lemma_tdiv_nonneg_le(n: int, m: int, d: int)
    requires
        0 <= n <= m,
        d > 0,
    ensures
        0 <= tdiv(n, d) <= tdiv(m, d),
{
    lemma_div_is_ordered(n, m, d);
    lemma_div_pos_is_pos(n, d);
}

/// The parabola stage stays within `[0, UNIT]` on `[0, HALF_TURN]`.
proof fn lemma_sin_parabola_range(x: int)
    requires
        0 <= x <= HALF_TURN,
    ensures
        0 <= tdiv(4 * x * (HALF_TURN - x) * UNIT, (HALF_TURN as int) * (HALF_TURN as int)) <= UNIT,
{
    let h = HALF_TURN as int;
    let u = UNIT as int;
    assert(0 <= 4 * x * (h - x) * u && 4 * x * (h - x) * u <= h * h * u) by (nonlinear_arith)
        requires 0 <= x <= h, u > 0;
    lemma_tdiv_nonneg_le(4 * x * (h - x) * u, h * h * u, h * h);
    assert(h * h * u == (h * h) * u);
    lemma_div_multiples_vanish(u, h * h);
}

/// The blend stage maps `[0, UNIT]` into `[0, UNIT]`.
proof fn lemma_sin_blend_range(y: int)
    requires
        0 <= y <= UNIT,
    ensures
        0 <= tdiv(225 * y * y + 775 * y * UNIT, (UNIT as int) * (UNIT as int)) <= UNIT,
{
    let u = UNIT as int;
    assert(0 <= 225 * y * y + 775 * y * u && 225 * y * y + 775 * y * u <= (u * u) * u)
        by (nonlinear_arith)
        requires 0 <= y <= u, u == 1000;
    lemma_tdiv_nonneg_le(225 * y * y + 775 * y * u, (u * u) * u, u * u);
    lemma_div_multiples_vanish(u, u * u);
}

/// [`sin_half`] stays within `[0, UNIT]`.
pub proof fn lemma_sin_half_range(x: int)
    requires
        0 <= x <= HALF_TURN,
    ensures
        0 <= sin_half(x) <= UNIT,
{
    lemma_sin_parabola_range(x);
    lemma_sin_blend_range(
        tdiv(4 * x * (HALF_TURN - x) * UNIT, (HALF_TURN as int) * (HALF_TURN as int)),
    );
}

/// [`sin_full`] stays within `[-UNIT, UNIT]` over a turn.
pub proof fn lemma_sin_full_range(x: int)
    requires
        0 <= x < FULL_TURN,
    ensures
        -(UNIT as int) <= sin_full(x) <= UNIT as int,
{
    if x <= HALF_TURN {
        lemma_sin_half_range(x);
    } else {
        lemma_sin_half_range(x - HALF_TURN);
    }
}

/// Sine of `x` raw angle units, for `x` in `[0, HALF_TURN]`.
fn sin_half_exec(x: i64) -> (r: i64)
    requires
        0 <= x <= HALF_TURN,
    ensures
        r as int == sin_half(x as int),
        0 <= r <= UNIT,
{
    proof {
        lemma_sin_parabola_range(x as int);
    }
    let y = fx_muldiv3(4 * x, HALF_TURN - x, UNIT, HALF_TURN * HALF_TURN);
    proof {
        lemma_sin_blend_range(y as int);
        assert((y as int) * (225 * (y as int) + 775 * (UNIT as int)) == 225 * (y as int) * (y
            as int) + 775 * (y as int) * (UNIT as int)) by (nonlinear_arith);
    }
    let s = fx_muldiv(y, 225 * y + 775 * UNIT, UNIT * UNIT);
    s
}

/// Sine of a normalized raw angle.
pub fn sin_raw(x: i64) -> (r: i64)
    requires
        0 <= x < FULL_TURN,
    ensures
        r as int == sin_full(x as int),
        -(UNIT as int) <= r as int <= UNIT as int,
{
    if x <= HALF_TURN {
        sin_half_exec(x)
    } else {
        fx_neg(sin_half_exec(x - HALF_TURN))
    }
}

/// Cosine of a normalized raw angle.
pub fn cos_raw(x: i64) -> (r: i64)
    requires
        0 <= x < FULL_TURN,
    ensures
        r as int == cos_full(x as int),
        -(UNIT as int) <= r as int <= UNIT as int,
{
    let shifted = if x + QUARTER_TURN >= FULL_TURN {
        x + QUARTER_TURN - FULL_TURN
    } else {
        x + QUARTER_TURN
    };
    proof {
        let v = x as int + QUARTER_TURN;
        if v >= FULL_TURN {
            lemma_mod_add_multiples_vanish(v - FULL_TURN, FULL_TURN as int);
            lemma_small_mod((v - FULL_TURN) as nat, FULL_TURN as nat);
        } else {
            lemma_small_mod(v as nat, FULL_TURN as nat);
        }
    }
    sin_raw(shifted)
}

/// [`cos_full`] stays within `[-UNIT, UNIT]` for any argument.
pub proof fn lemma_cos_full_range(x: int)
    ensures
        -(UNIT as int) <= cos_full(x) <= UNIT as int,
{
    crate::angle::lemma_norm_angle_range(x + QUARTER_TURN);
    lemma_sin_full_range(norm_angle(x + QUARTER_TURN));
}

/// The clip of an almost-unit pair into the closed unit disc: when the
/// squared length exceeds `UNIT * UNIT`, the larger component gives up
/// just enough raw increments to come back inside.
pub open spec fn spec_clip(c: int, s: int) -> Vec2 {
    let u = UNIT as int;
    let e = c * c + s * s - u * u;
    if e <= 0 {
        Vec2 { x: c as i64, y: s as i64 }
    } else if spec_abs(c) >= spec_abs(s) {
        let m = spec_abs(c);
        let d = (e + m - 1) / m;
        Vec2 { x: (if c >= 0 { c - d } else { c + d }) as i64, y: s as i64 }
    } else {
        let m = spec_abs(s);
        let d = (e + m - 1) / m;
        Vec2 { x: c as i64, y: (if s >= 0 { s - d } else { s + d }) as i64 }
    }
}

/// A ceiling division by a positive divisor is at least the exact
/// quotient: `d * ((e + d' - 1) / d') * d' >= e` shaped facts.
proof fn lemma_ceil_div_covers(e: int, m: int)
    requires
        e >= 1,
        m >= 1,
    ensures
        ((e + m - 1) / m) * m >= e,
        (e + m - 1) / m >= 1,
        e <= m * m ==> (e + m - 1) / m <= m,
{
    let d = (e + m - 1) / m;
    lemma_fundamental_div_mod(e + m - 1, m);
    let r = (e + m - 1) % m;
    vstd::arithmetic::div_mod::lemma_mod_division_less_than_divisor(e + m - 1, m);
    assert(e + m - 1 == m * d + r);
    assert(d * m >= e) by (nonlinear_arith)
        requires e + m - 1 == m * d + r, 0 <= r < m;
    assert(d >= 1) by (nonlinear_arith)
        requires e + m - 1 == m * d + r, 0 <= r < m, e >= 1, m >= 1;
    if e <= m * m {
        assert(d <= m) by (nonlinear_arith)
            requires e + m - 1 == m * d + r, 0 <= r, e <= m * m, m >= 1;
    }
}

/// After clipping, the pair lies inside the closed unit disc, and a
/// pair already inside is unchanged.
pub proof fn lemma_clip_in_disc(c: int, s: int)
    requires
        -(UNIT as int) <= c <= UNIT as int,
        -(UNIT as int) <= s <= UNIT as int,
    ensures
        len2(spec_clip(c, s)) <= (UNIT as int) * (UNIT as int),
        c * c + s * s <= (UNIT as int) * (UNIT as int) ==> spec_clip(c, s) == (Vec2 {
            x: c as i64,
            y: s as i64,
        }),
{
    let u = UNIT as int;
    let e = c * c + s * s - u * u;
    if e <= 0 {
        assert(len2(spec_clip(c, s)) == c * c + s * s);
    } else if spec_abs(c) >= spec_abs(s) {
        let m = spec_abs(c);
        assert(m * m >= e && m >= 1 && m <= u && s * s + m * m - u * u <= e) by (nonlinear_arith)
            requires
                e == c * c + s * s - u * u,
                e > 0,
                m == spec_abs(c),
                m >= spec_abs(s),
                m == spec_abs(c) && (c >= 0 ==> m == c) && (c < 0 ==> m == -c),
                (s >= 0 ==> spec_abs(s) == s) && (s < 0 ==> spec_abs(s) == -s),
                -u <= c <= u,
                u == 1000;
        let d = (e + m - 1) / m;
        lemma_ceil_div_covers(e, m);
        assert(m * m == c * c) by (nonlinear_arith)
            requires (c >= 0 ==> m == c) && (c < 0 ==> m == -c);
        assert((m - d) * (m - d) + s * s <= u * u) by (nonlinear_arith)
            requires
                d * m >= e,
                1 <= d <= m,
                e == c * c + s * s - u * u,
                m * m == c * c;
        assert(0 <= m - d <= u);
        if c >= 0 {
            assert(len2(spec_clip(c, s)) == (m - d) * (m - d) + s * s);
        } else {
            assert(c + d == -(m - d));
            assert(len2(spec_clip(c, s)) == (m - d) * (m - d) + s * s) by (nonlinear_arith)
                requires c + d == -(m - d), len2(spec_clip(c, s)) == (c + d) * (c + d) + s * s;
        }
    } else {
        let m = spec_abs(s);
        assert(m * m >= e && m >= 1 && m <= u && c * c + m * m - u * u <= e) by (nonlinear_arith)
            requires
                e == c * c + s * s - u * u,
                e > 0,
                m == spec_abs(s),
                m >= spec_abs(c),
                (s >= 0 ==> m == s) && (s < 0 ==> m == -s),
                (c >= 0 ==> spec_abs(c) == c) && (c < 0 ==> spec_abs(c) == -c),
                -u <= s <= u,
                u == 1000;
        let d = (e + m - 1) / m;
        lemma_ceil_div_covers(e, m);
        assert(m * m == s * s) by (nonlinear_arith)
            requires (s >= 0 ==> m == s) && (s < 0 ==> m == -s);
        assert((m - d) * (m - d) + c * c <= u * u) by (nonlinear_arith)
            requires
                d * m >= e,
                1 <= d <= m,
                e == c * c + s * s - u * u,
                m * m == s * s;
        assert(0 <= m - d <= u);
        if s >= 0 {
            assert(len2(spec_clip(c, s)) == c * c + (m - d) * (m - d));
        } else {
            assert(s + d == -(m - d));
            assert(len2(spec_clip(c, s)) == c * c + (m - d) * (m - d)) by (nonlinear_arith)
                requires s + d == -(m - d), len2(spec_clip(c, s)) == c * c + (s + d) * (s + d);
        }
    }
}

/// Executable clip into the closed unit disc.
fn clip_to_unit(c: i64, s: i64) -> (r: Vec2)
    requires
        -UNIT <= c <= UNIT,
        -UNIT <= s <= UNIT,
    ensures
        r == spec_clip(c as int, s as int),
        len2(r) <= (UNIT as int) * (UNIT as int),
{
    proof {
        lemma_clip_in_disc(c as int, s as int);
        assert(0 <= (c as int) * (c as int) <= 1_000_000 && 0 <= (s as int) * (s as int)
            <= 1_000_000) by (nonlinear_arith)
            requires -1000 <= c as int <= 1000, -1000 <= s as int <= 1000;
    }
    let e: i64 = c * c + s * s - UNIT * UNIT;
    if e <= 0 {
        Vec2 { x: c, y: s }
    } else {
        let ac = if c >= 0 { c } else { -c };
        let ac2 = if s >= 0 { s } else { -s };
        if ac >= ac2 {
            let m = ac;
            let d = (((e + m - 1) as u64) / (m as u64)) as i64;
            proof {
                lemma_ceil_div_covers(e as int, m as int);
            }
            Vec2 { x: if c >= 0 { c - d } else { c + d }, y: s }
        } else {
            let m = ac2;
            let d = (((e + m - 1) as u64) / (m as u64)) as i64;
            proof {
                lemma_ceil_div_covers(e as int, m as int);
            }
            Vec2 { x: c, y: if s >= 0 { s - d } else { s + d } }
        }
    }
}

/// The unit direction vector of an angle: cosine and sine, clipped
/// into the closed unit disc.
pub open spec fn spec_unit_vec(x: int) -> Vec2 {
    spec_clip(cos_full(x), sin_full(x))
}

/// The unit direction vector of an angle.  Its squared length never
/// exceeds one squared unit.
pub fn unit_vec(a: Angle) -> (r: Vec2)
    requires
        angle_wf(a),
    ensures
        r == spec_unit_vec(a.raw as int),
        len2(r) <= (UNIT as int) * (UNIT as int),
{
    let c = cos_raw(a.raw);
    let s = sin_raw(a.raw);
    clip_to_unit(c, s)
}

/// Rational arctangent of a nonnegative ratio `z` in `[0, UNIT]`
/// (meaning `z / UNIT` as a real ratio), in raw angle units: a
/// quadratic correction on top of the linear term keeps the error
/// within a few raw units across the octant.
pub open spec fn atan_unit(z: int) -> int {
    tdiv(z * (7854 * UNIT + 2730 * (UNIT - z)), 10000 * (UNIT as int))
}

/// [`atan_unit`] stays within `[0, 785]` (an eighth of a turn) on its
/// ratio range.
pub proof fn lemma_atan_unit_range(z: int)
    requires
        0 <= z <= UNIT,
    ensures
        0 <= atan_unit(z) <= 785,
{
    let u = UNIT as int;
    assert(0 <= z * (7854 * u + 2730 * (u - z)) && z * (7854 * u + 2730 * (u - z)) <= 7854 * (u
        * u)) by (nonlinear_arith)
        requires 0 <= z <= u, u == 1000;
    lemma_tdiv_nonneg_le(z * (7854 * u + 2730 * (u - z)), 7854 * (u * u), 10000 * u);
}

/// The angle of a vector, in raw units in `[0, FULL_TURN)`: octant
/// reduction to [`atan_unit`], then quadrant symmetry.  The zero vector
/// maps to angle zero.
pub open spec fn spec_arg_raw(v: Vec2) -> int {
    let ax = spec_abs(v.x as int);
    let ay = spec_abs(v.y as int);
    if ax == 0 && ay == 0 {
        0
    } else {
        let base = if ax >= ay {
            atan_unit(tdiv(ay * UNIT, ax))
        } else {
            QUARTER_TURN - atan_unit(tdiv(ax * UNIT, ay))
        };
        if v.x >= 0 && v.y >= 0 {
            base
        } else if v.x < 0 && v.y >= 0 {
            HALF_TURN - base
        } else if v.x < 0 {
            HALF_TURN + base
        } else {
            norm_angle(FULL_TURN - base)
        }
    }
}

/// The octant base of [`spec_arg_raw`] lies in `[0, QUARTER_TURN]`.
proof fn lemma_arg_base_range(ax: int, ay: int)
    requires
        ax >= 0,
        ay >= 0,
        ax > 0 || ay > 0,
    ensures
        ax >= ay ==> 0 <= atan_unit(tdiv(ay * UNIT, ax)) <= 785,
        ax < ay ==> 786 <= QUARTER_TURN - atan_unit(tdiv(ax * UNIT, ay)) <= QUARTER_TURN,
{
    let u = UNIT as int;
    if ax >= ay {
        assert(0 <= ay * u <= ax * u) by (nonlinear_arith)
            requires 0 <= ay <= ax, u > 0;
        lemma_tdiv_nonneg_le(ay * u, ax * u, ax);
        lemma_div_multiples_vanish(u, ax);
        lemma_atan_unit_range(tdiv(ay * u, ax));
    } else {
        assert(0 <= ax * u <= ay * u) by (nonlinear_arith)
            requires 0 <= ax <= ay, u > 0;
        lemma_tdiv_nonneg_le(ax * u, ay * u, ay);
        lemma_div_multiples_vanish(u, ay);
        lemma_atan_unit_range(tdiv(ax * u, ay));
    }
}

/// [`spec_arg_raw`] is a normalized angle.
pub proof fn lemma_arg_range(v: Vec2)
    ensures
        0 <= spec_arg_raw(v) < FULL_TURN,
{
    let ax = spec_abs(v.x as int);
    let ay = spec_abs(v.y as int);
    if ax == 0 && ay == 0 {
    } else {
        lemma_arg_base_range(ax, ay);
        let base = if ax >= ay {
            atan_unit(tdiv(ay * UNIT, ax))
        } else {
            QUARTER_TURN - atan_unit(tdiv(ax * UNIT, ay))
        };
        if v.x >= 0 && v.y >= 0 {
        } else if v.x < 0 && v.y >= 0 {
        } else if v.x < 0 {
        } else {
            if base == 0 {
                assert(norm_angle(FULL_TURN - 0) == 0) by {
                    vstd::arithmetic::div_mod::lemma_mod_self_0(FULL_TURN as int);
                };
            } else {
                lemma_small_mod((FULL_TURN - base) as nat, FULL_TURN as nat);
            }
        }
    }
}

/// Unsigned magnitude of a scalar (total, no saturation).
fn abs_u64(x: i64) -> (r: u64)
    ensures
        r as int == spec_abs(x as int),
{
    if x >= 0 {
        x as u64
    } else {
        (-(x as i128)) as u64
    }
}

/// The angle of a vector, measured counterclockwise from the positive
/// x axis.  The zero vector maps to angle zero.
pub fn v_arg(v: Vec2) -> (r: Angle)
    ensures
        r.raw as int == spec_arg_raw(v),
        angle_wf(r),
{
    proof {
        lemma_arg_range(v);
    }
    let ax = abs_u64(v.x);
    let ay = abs_u64(v.y);
    if ax == 0 && ay == 0 {
        Angle { raw: 0 }
    } else {
        proof {
            lemma_arg_base_range(ax as int, ay as int);
        }
        let base: i64 = if ax >= ay {
            let z = ((ay as u128 * UNIT as u128) / (ax as u128)) as i64;
            proof {
                assert(0 <= (ay as int) * (UNIT as int) <= (ax as int) * (UNIT as int))
                    by (nonlinear_arith)
                    requires 0 <= ay as int <= ax as int;
                lemma_tdiv_nonneg_le((ay as int) * (UNIT as int), (ax as int) * (UNIT as int),
                    ax as int);
                lemma_div_multiples_vanish(UNIT as int, ax as int);
                lemma_atan_unit_range(z as int);
            }
            let inner: i64 = 7854 * UNIT + 2730 * (UNIT - z);
            fx_muldiv(z, inner, 10000 * UNIT)
        } else {
            let z = ((ax as u128 * UNIT as u128) / (ay as u128)) as i64;
            proof {
                assert(0 <= (ax as int) * (UNIT as int) <= (ay as int) * (UNIT as int))
                    by (nonlinear_arith)
                    requires 0 <= ax as int <= ay as int;
                lemma_tdiv_nonneg_le((ax as int) * (UNIT as int), (ay as int) * (UNIT as int),
                    ay as int);
                lemma_div_multiples_vanish(UNIT as int, ay as int);
                lemma_atan_unit_range(z as int);
            }
            let inner: i64 = 7854 * UNIT + 2730 * (UNIT - z);
            QUARTER_TURN - fx_muldiv(z, inner, 10000 * UNIT)
        };
        if v.x >= 0 && v.y >= 0 {
            Angle { raw: base }
        } else if v.x < 0 && v.y >= 0 {
            Angle { raw: HALF_TURN - base }
        } else if v.x < 0 {
            Angle { raw: HALF_TURN + base }
        } else {
            if base == 0 {
                proof {
                    vstd::arithmetic::div_mod::lemma_mod_self_0(FULL_TURN as int);
                }
                Angle { raw: 0 }
            } else {
                proof {
                    lemma_small_mod((FULL_TURN - base) as nat, FULL_TURN as nat);
                }
                Angle { raw: FULL_TURN - base }
            }
        }
    }
}

/// The arccosine of a ratio in `[-UNIT, UNIT]`: the angle of the upper
/// half-plane vector whose cosine is that ratio.
pub open spec fn spec_acos_raw(x: int) -> int {
    spec_arg_raw(
        Vec2 {
            x: x as i64,
            y: isqrt_spec((UNIT as int) * (UNIT as int) - x * x) as i64,
        },
    )
}

/// The arccosine of a ratio, in raw angle units in `[0, HALF_TURN]`.
pub fn acos_raw(x: i64) -> (r: i64)
    requires
        -UNIT <= x <= UNIT,
    ensures
        r as int == spec_acos_raw(x as int),
        0 <= r <= HALF_TURN,
{
    proof {
        assert(0 <= (x as int) * (x as int) <= 1_000_000) by (nonlinear_arith)
            requires -1000 <= x as int <= 1000;
    }
    let xx: i64 = x * x;
    let d: u128 = (UNIT * UNIT - xx) as u128;
    let s128 = crate::fixed::isqrt_u128(d);
    proof {
        assert(s128 as int <= 1000) by (nonlinear_arith)
            requires
                (s128 as int) * (s128 as int) <= d as int,
                d as int <= 1_000_000;
        lemma_isqrt_exists((UNIT as int) * (UNIT as int) - (x as int) * (x as int));
        lemma_isqrt_unique(
            s128 as int,
            isqrt_spec((UNIT as int) * (UNIT as int) - (x as int) * (x as int)),
            (UNIT as int) * (UNIT as int) - (x as int) * (x as int),
        );
    }
    let s: i64 = s128 as i64;
    let a = v_arg(Vec2 { x, y: s });
    proof {
        let v = Vec2 { x, y: s };
        let ax = spec_abs(v.x as int);
        let ay = spec_abs(v.y as int);
        if ax == 0 && ay == 0 {
        } else {
            lemma_arg_base_range(ax, ay);
        }
    }
    a.raw
}

/// The angle of the straight-up direction is a quarter turn; straight
/// down is three quarters; the horizontal directions are zero and half
/// a turn.  These are the exact anchor points the ground
/// classification relies on.
pub proof fn lemma_arg_axes(v: Vec2)
    ensures
        v.x == 0 && v.y > 0 ==> spec_arg_raw(v) == QUARTER_TURN,
        v.x == 0 && v.y < 0 ==> spec_arg_raw(v) == HALF_TURN + QUARTER_TURN,
        v.y == 0 && v.x > 0 ==> spec_arg_raw(v) == 0,
        v.y == 0 && v.x < 0 ==> spec_arg_raw(v) == HALF_TURN,
{
    let ax = spec_abs(v.x as int);
    let ay = spec_abs(v.y as int);
    if v.x == 0 && v.y > 0 {
        assert(tdiv(0 * (UNIT as int), ay) == 0) by {
            vstd::arithmetic::div_mod::lemma_div_of0(ay);
        };
        assert(atan_unit(0) == 0) by {
            vstd::arithmetic::div_mod::lemma_div_of0(10000 * (UNIT as int));
        };
    } else if v.x == 0 && v.y < 0 {
        assert(tdiv(0 * (UNIT as int), ay) == 0) by {
            vstd::arithmetic::div_mod::lemma_div_of0(ay);
        };
        assert(atan_unit(0) == 0) by {
            vstd::arithmetic::div_mod::lemma_div_of0(10000 * (UNIT as int));
        };
        lemma_small_mod((FULL_TURN - QUARTER_TURN) as nat, FULL_TURN as nat);
    } else if v.y == 0 && v.x != 0 {
        assert(tdiv(0 * (UNIT as int), ax) == 0) by {
            vstd::arithmetic::div_mod::lemma_div_of0(ax);
        };
        assert(atan_unit(0) == 0) by {
            vstd::arithmetic::div_mod::lemma_div_of0(10000 * (UNIT as int));
        };
    }
}

} // verus!
