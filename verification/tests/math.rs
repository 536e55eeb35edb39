//! Scalar, vector, angle and trigonometry behavior on exact values.

use swing_physics::angle::{Angle, FULL_TURN, HALF_TURN, QUARTER_TURN};
use swing_physics::fixed::{fx_add, fx_clamp_abs, fx_div, fx_mul, fx_sub};
use swing_physics::trig::{acos_raw, sin_raw, unit_vec, v_arg};
use swing_physics::vector::{
    clamp_len, normalize_or_zero, rotate_90, v_add, v_dot, v_len, v_rawdot, v_sub, Vec2,
};

#[test]
fn fixed_ops_round_and_saturate() {
    assert_eq!(fx_add(2500, 400), 2900);
    assert_eq!(fx_add(i64::MAX, 1), i64::MAX);
    assert_eq!(fx_sub(i64::MIN, 1), i64::MIN);
    // 1.5 * 1.1 == 1.65
    assert_eq!(fx_mul(1500, 1100), 1650);
    assert_eq!(fx_mul(-1500, 1100), -1650);
    // 3.0 / 1.5 == 2.0
    assert_eq!(fx_div(3000, 1500), 2000);
    // truncation is toward zero on both sides
    assert_eq!(fx_mul(5, 300), 1);
    assert_eq!(fx_mul(-5, 300), -1);
    assert_eq!(fx_clamp_abs(2500, 1000), 1000);
    assert_eq!(fx_clamp_abs(-2500, 1000), -1000);
    assert_eq!(fx_clamp_abs(700, 1000), 700);
}

#[test]
fn vector_length_is_integer_square_root() {
    assert_eq!(v_len(Vec2 { x: 3000, y: 4000 }), 5000);
    assert_eq!(v_len(Vec2 { x: 0, y: 0 }), 0);
    assert_eq!(v_len(Vec2 { x: 1, y: 1 }), 1);
    assert_eq!(v_len(Vec2 { x: -3000, y: 4000 }), 5000);
}

#[test]
fn vector_dot_and_rotation() {
    assert_eq!(v_dot(Vec2 { x: 1000, y: 0 }, Vec2 { x: 0, y: 1000 }), 0);
    assert_eq!(v_dot(Vec2 { x: 2000, y: 0 }, Vec2 { x: 3000, y: 0 }), 6000);
    assert_eq!(v_rawdot(Vec2 { x: 2, y: 3 }, Vec2 { x: 5, y: 7 }), 31);
    assert_eq!(rotate_90(Vec2 { x: 1000, y: 0 }), Vec2 { x: 0, y: 1000 });
    assert_eq!(rotate_90(Vec2 { x: 0, y: 1000 }), Vec2 { x: -1000, y: 0 });
    assert_eq!(
        v_add(Vec2 { x: 10, y: -4 }, Vec2 { x: 5, y: 4 }),
        Vec2 { x: 15, y: 0 }
    );
    assert_eq!(
        v_sub(Vec2 { x: 10, y: -4 }, Vec2 { x: 5, y: 4 }),
        Vec2 { x: 5, y: -8 }
    );
}

#[test]
fn normalize_is_exact_on_axes_and_scales_others() {
    assert_eq!(normalize_or_zero(Vec2 { x: 0, y: -5000 }), Vec2 { x: 0, y: -1000 });
    assert_eq!(normalize_or_zero(Vec2 { x: 2000, y: 0 }), Vec2 { x: 1000, y: 0 });
    assert_eq!(normalize_or_zero(Vec2 { x: 3000, y: 4000 }), Vec2 { x: 600, y: 800 });
    assert_eq!(normalize_or_zero(Vec2 { x: 0, y: 0 }), Vec2 { x: 0, y: 0 });
}

#[test]
fn clamp_len_scales_direction_and_is_idempotent() {
    let clamped = clamp_len(Vec2 { x: 3000, y: 0 }, 1650);
    assert_eq!(clamped, Vec2 { x: 1650, y: 0 });
    // already short enough: unchanged
    assert_eq!(clamp_len(Vec2 { x: 300, y: 400 }, 1650), Vec2 { x: 300, y: 400 });
    // clamping twice equals clamping once
    assert_eq!(clamp_len(clamped, 1650), clamped);
    let diagonal = clamp_len(Vec2 { x: 4000, y: 4000 }, 1000);
    assert_eq!(clamp_len(diagonal, 1000), diagonal);
    assert!(v_len(diagonal) <= 1000);
}

#[test]
fn angles_normalize_into_one_turn() {
    assert_eq!(Angle::new(0).raw, 0);
    assert_eq!(Angle::new(-100).raw, FULL_TURN - 100);
    assert_eq!(Angle::new(FULL_TURN).raw, 0);
    assert_eq!(Angle::new(7000).raw, 7000 - FULL_TURN);
    assert_eq!(Angle::new(-FULL_TURN - 1).raw, FULL_TURN - 1);
}

#[test]
fn angle_delta_takes_the_short_way() {
    assert_eq!(Angle { raw: 100 }.delta_to(Angle { raw: 300 }), 200);
    assert_eq!(Angle { raw: 100 }.delta_to(Angle { raw: 6200 }), -184);
    assert_eq!(Angle { raw: 6200 }.delta_to(Angle { raw: 100 }), 184);
    assert_eq!(Angle { raw: 0 }.delta_to(Angle { raw: HALF_TURN }), HALF_TURN);
}

#[test]
fn unit_vectors_are_exact_on_the_axes() {
    assert_eq!(unit_vec(Angle { raw: 0 }), Vec2 { x: 1000, y: 0 });
    assert_eq!(unit_vec(Angle { raw: QUARTER_TURN }), Vec2 { x: 0, y: 1000 });
    assert_eq!(unit_vec(Angle { raw: HALF_TURN }), Vec2 { x: -1000, y: 0 });
    assert_eq!(
        unit_vec(Angle { raw: HALF_TURN + QUARTER_TURN }),
        Vec2 { x: 0, y: -1000 }
    );
}

#[test]
fn unit_vectors_never_leave_the_unit_disc() {
    let mut a: i64 = 0;
    while a < FULL_TURN {
        let u = unit_vec(Angle { raw: a });
        assert!(u.x * u.x + u.y * u.y <= 1_000_000);
        a += 97;
    }
}

#[test]
fn sine_is_close_to_the_real_sine() {
    assert_eq!(sin_raw(0), 0);
    assert_eq!(sin_raw(QUARTER_TURN), 1000);
    assert_eq!(sin_raw(HALF_TURN), 0);
    // sin(0.524 rad) is 0.5005...; the blend lands within a couple of
    // raw units
    assert_eq!(sin_raw(524), 499);
    // odd symmetry about the half turn
    assert_eq!(sin_raw(HALF_TURN + 524), -499);
}

#[test]
fn arg_is_exact_on_the_axes_and_close_on_diagonals() {
    assert_eq!(v_arg(Vec2 { x: 500, y: 0 }).raw, 0);
    assert_eq!(v_arg(Vec2 { x: 0, y: 700 }).raw, QUARTER_TURN);
    assert_eq!(v_arg(Vec2 { x: -9, y: 0 }).raw, HALF_TURN);
    assert_eq!(v_arg(Vec2 { x: 0, y: -1 }).raw, HALF_TURN + QUARTER_TURN);
    assert_eq!(v_arg(Vec2 { x: 0, y: 0 }).raw, 0);
    // an eighth of a turn is 785.5 raw units
    assert_eq!(v_arg(Vec2 { x: 700, y: 700 }).raw, 785);
}

#[test]
fn acos_is_exact_at_its_anchors() {
    assert_eq!(acos_raw(1000), 0);
    assert_eq!(acos_raw(-1000), HALF_TURN);
    assert_eq!(acos_raw(0), QUARTER_TURN);
}
