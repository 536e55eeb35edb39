//! Per-tick orchestration.
//!
//! Each tick runs, in fixed order: gravity, control verification, the
//! hold query, the swing-history update and speed model, locomotion
//! blending, the jump kick, position integration, arm actuation with
//! impulse feedback, the hold outcome, and collision resolution
//! against the level's surfaces.

use vstd::prelude::*;

use crate::angle::{norm_angle, Angle, HALF_TURN};
use crate::arm_skeleton::{spec_polar_vec, ArmSkeleton, PolarPoint};
use crate::body::{body_wf, Body, PhysicsBody, VEL_LIMIT};
use crate::collider::{bounded_vec2, COLLIDER_LIMIT};
use crate::control::{control_wf, spec_reach_limit, BodyControl};
use crate::fixed::{sat64, sat_i64, spec_clamp, spec_fmul, UNIT};
use crate::point::PhysicsPoint;
use crate::running::{
    spec_analyze_seq, spec_calc_stats, spec_evict, BodyMovementState, RECORD_LENGTH,
};
use crate::surface::{level_wf, Level};
use crate::vector::{
    len2, spec_normalize, spec_rot90, spec_scale_to, spec_v_add, spec_v_clamp_box, spec_v_fdiv,
    spec_v_len, spec_v_neg, spec_v_scale, spec_v_sub, normalize_or_zero, rotate_90, v_add,
    v_clamp_box, v_fdiv, v_len, v_neg, v_scale, v_sub, Vec2,
};

verus! {

/// Gravity, raw units per second squared (downward).
pub const GRAVITY_Y: i64 = -9_800;

/// Horizontal acceleration while grounded, when speeding up with the
/// motion.
pub const GROUND_ACCELERATION: i64 = 30_000;

/// Horizontal deceleration while grounded, when braking against the
/// motion.
pub const GROUND_DECELERATION: i64 = 50_000;

/// Horizontal acceleration while airborne.
pub const AIR_ACCELERATION: i64 = 5_000;

/// The upward speed a jump adds along the ground normal.
pub const JUMP_STRENGTH: i64 = 5_000;

/// How strongly the arm's momentum feeds the jump.
pub const JUMP_ARM_FACTOR: i64 = 4_000;

/// The whole simulation: the player's body, the level, and the index
/// of the last surface hit.
#[derive(Clone, Debug)]
pub struct Model {
    pub player: Body,
    pub level: Level,
    pub surface_collision: Option<usize>,
}

/// A well-formed model.
pub open spec fn model_wf(m: Model) -> bool {
    body_wf(m.player) && level_wf(m.level)
}

/// Gravity applied to a body's velocity over a tick.
pub open spec fn spec_gravity(c: PhysicsBody, dt: i64) -> PhysicsBody {
    PhysicsBody {
        velocity: spec_v_clamp_box(
            spec_v_add(c.velocity, spec_v_scale(Vec2 { x: 0i64, y: GRAVITY_Y }, dt as int)),
            VEL_LIMIT as int,
        ),
        ..c
    }
}

/// The locomotion blend: the horizontal velocity is driven toward the
/// control's target speed along the ground tangent when grounded, or
/// along the world horizontal when airborne, at the matching
/// acceleration.
pub open spec fn spec_locomotion(
    c: PhysicsBody,
    gn: Option<Vec2>,
    move_speed: i64,
    stats_speed: i64,
    dt: i64,
) -> PhysicsBody {
    let dir = match gn {
        Option::Some(n) => spec_v_neg(spec_rot90(n)),
        Option::None => Vec2 { x: UNIT, y: 0i64 },
    };
    let target_speed = spec_fmul(move_speed as int, stats_speed as int);
    let delta_speed = sat64(target_speed - c.velocity.x);
    let speeding = (c.velocity.x as int) * delta_speed > 0;
    let acc = match gn {
        Option::Some(n) => if speeding {
            GROUND_ACCELERATION as int
        } else {
            GROUND_DECELERATION as int
        },
        Option::None => AIR_ACCELERATION as int,
    };
    let cap = spec_fmul(acc, dt as int);
    let dv = spec_clamp(delta_speed, -cap, cap);
    PhysicsBody {
        velocity: spec_v_clamp_box(
            spec_v_add(c.velocity, spec_v_scale(dir, dv)),
            VEL_LIMIT as int,
        ),
        ..c
    }
}

/// The jump kick: while grounded and jumping, the velocity gains the
/// jump strength along the ground normal plus the arm's momentum
/// scaled and divided by the body's mass.
pub open spec fn spec_jump(c: PhysicsBody, gn: Option<Vec2>, jump: bool, arm: ArmSkeleton)
    -> PhysicsBody {
    match gn {
        Option::Some(n) => {
            if jump {
                let kick = spec_v_add(
                    spec_v_scale(n, JUMP_STRENGTH as int),
                    spec_v_fdiv(
                        spec_v_scale(arm.spec_impulse(), JUMP_ARM_FACTOR as int),
                        c.mass as int,
                    ),
                );
                PhysicsBody {
                    velocity: spec_v_clamp_box(spec_v_add(c.velocity, kick), VEL_LIMIT as int),
                    ..c
                }
            } else {
                c
            }
        },
        Option::None => c,
    }
}

/// The free target of the back arm: the control's hand target
/// reflected to the opposite side, in polar form.
pub open spec fn spec_back_target(hand_target: Vec2) -> Vec2 {
    let polar = PolarPoint::spec_from_cartesian(hand_target);
    let back_angle = Angle {
        raw: norm_angle(polar.angle.spec_delta_to(Angle { raw: HALF_TURN })) as i64,
    };
    spec_polar_vec(polar.distance, back_angle)
}

/// The hold outcome: a broken hold clears the anchor; a kept hold
/// beyond the arm's reach pulls the body back onto the reach circle
/// around the anchor.
pub open spec fn spec_hold_snap(
    c: PhysicsBody,
    holding: Option<Vec2>,
    hold_vec: Option<Vec2>,
    release: bool,
    max_reach: i64,
) -> (PhysicsBody, Option<Vec2>) {
    if release {
        (c, Option::None)
    } else {
        match (holding, hold_vec) {
            (Option::Some(anchor), Option::Some(hv)) => {
                if spec_v_len(hv) > max_reach {
                    (
                        PhysicsBody {
                            position: spec_v_clamp_box(
                                spec_v_sub(
                                    anchor,
                                    spec_v_scale(spec_normalize(hv), max_reach as int),
                                ),
                                COLLIDER_LIMIT as int,
                            ),
                            ..c
                        },
                        holding,
                    )
                } else {
                    (c, holding)
                }
            },
            _ => (c, holding),
        }
    }
}

/// One whole tick over a model, given the already-verified control:
/// the resulting center body, both arms, the hold anchor, the ground
/// normal, the history clock and samples, and the hit surface index.
pub open spec fn spec_step(m: Model, vc: BodyControl, dt: i64) -> (
    PhysicsBody,
    ArmSkeleton,
    ArmSkeleton,
    Option<Vec2>,
    Option<Vec2>,
    i64,
    Seq<BodyMovementState>,
    Option<usize>,
) {
    let p = m.player;
    let c1 = spec_gravity(p.center, dt);
    let center_pt = PhysicsPoint {
        position: c1.position,
        radius: 0i64,
        velocity: c1.velocity,
        mass: c1.mass,
    };
    let hand = p.arm.spec_get_skeleton(center_pt).2;
    let hold1 = if vc.hold {
        match crate::body::spec_find_hold(m.level.surfaces@, hand, 0) {
            Option::Some(pt) => Option::Some(pt),
            Option::None => p.holding_to,
        }
    } else {
        Option::<Vec2>::None
    };
    let max_reach = (p.arm.elbow.point.distance + p.arm.hand.point.distance) as i64;
    let rec_hand = spec_v_fdiv(spec_v_sub(hand.position, c1.position), max_reach as int);
    let t2 = sat_i64(p.history.time + dt);
    let states2 = spec_evict(p.history.states@, sat64(t2 - RECORD_LENGTH)).push(
        BodyMovementState { time: t2, hand: rec_hand },
    );
    let stats = spec_calc_stats(spec_analyze_seq(states2));
    let c2 = spec_locomotion(c1, p.ground_normal, vc.move_speed, stats.move_speed, dt);
    let c3 = spec_jump(c2, p.ground_normal, vc.jump, p.arm);
    let c4 = c3.spec_movement(dt);
    let hold_vec = match hold1 {
        Option::Some(pt) => Option::Some(spec_v_sub(pt, c4.position)),
        Option::None => Option::<Vec2>::None,
    };
    let body_imp = spec_v_scale(c4.velocity, c4.mass as int);
    let armc = p.arm.spec_control(vc.hand_target, hold_vec, body_imp, dt);
    let arm2 = armc.0;
    let imp = armc.1;
    let release = armc.2;
    let armbc = p.arm_back.spec_control(spec_back_target(vc.hand_target), Option::None, body_imp,
        dt);
    let armb2 = armbc.0;
    let c5 = PhysicsBody {
        velocity: spec_v_clamp_box(
            spec_v_sub(c4.velocity, spec_v_fdiv(imp, c4.mass as int)),
            VEL_LIMIT as int,
        ),
        ..c4
    };
    let snapped = spec_hold_snap(c5, hold1, hold_vec, release, max_reach);
    let c6 = snapped.0;
    let hold2 = snapped.1;
    let pre = Body { center: c6, ground_normal: Option::<Vec2>::None, ..p };
    match crate::body::spec_best_collision(c6, m.level.surfaces@, 0, Option::None) {
        Option::None => (c6, arm2, armb2, hold2, Option::<Vec2>::None, t2, states2,
            Option::<usize>::None),
        Option::Some(b) => {
            let resolved = pre.spec_resolve(b.1);
            (resolved.center, arm2, armb2, hold2, resolved.ground_normal, t2, states2,
                Option::Some(b.0 as usize))
        },
    }
}

/// The whole tick holds between an old and a new model state.
pub open spec fn spec_step_holds(m0: Model, vc: BodyControl, dt: i64, m1: Model) -> bool {
    let t = spec_step(m0, vc, dt);
    &&& m1.player.center == t.0
    &&& m1.player.arm == t.1
    &&& m1.player.arm_back == t.2
    &&& m1.player.holding_to == t.3
    &&& m1.player.ground_normal == t.4
    &&& m1.player.history.time == t.5
    &&& m1.player.history.states@ == t.6
    &&& m1.surface_collision == t.7
    &&& m1.level == m0.level
}

/// One tick's worth of work: the time step and the raw control it
/// consumes.
pub struct Logic {
    pub delta_time: i64,
    pub player_control: BodyControl,
}

impl Logic {
    /// Runs the tick: applies gravity, verifies the control, and runs
    /// the movement, arm and collision pipeline.  Returns the verified
    /// control that was used.
    #[verifier::rlimit(100)]
    pub fn process(self, model: &mut Model) -> (r: BodyControl)
        requires
            model_wf(*old(model)),
            control_wf(self.player_control),
            self.delta_time >= 0,
        ensures
            model_wf(*final(model)),
            ({
                let limit = spec_reach_limit(
                    old(model).player.arm.elbow.point.distance
                        + old(model).player.arm.hand.point.distance,
                );
                &&& crate::control::spec_control_clamped(r, limit)
                &&& control_wf(r)
                &&& r.move_speed == spec_clamp(self.player_control.move_speed as int,
                    -(UNIT as int), UNIT as int)
                &&& r.target_height == spec_clamp(self.player_control.target_height as int, 0,
                    UNIT as int)
                &&& r.hold == self.player_control.hold
                &&& r.jump == self.player_control.jump
                &&& (spec_v_len(self.player_control.hand_target) <= limit ==> r.hand_target
                    == self.player_control.hand_target)
                &&& (crate::control::spec_control_clamped(self.player_control, limit) ==> r
                    == self.player_control)
                &&& (spec_v_len(self.player_control.hand_target) > limit && len2(
                    spec_scale_to(self.player_control.hand_target, limit),
                ) <= limit * limit ==> r.hand_target == spec_scale_to(
                    self.player_control.hand_target, limit))
            }),
            spec_step_holds(*old(model), r, self.delta_time, *final(model)),
    {
        let dt = self.delta_time;
        let verified = self.player_control.verify(&model.player);
        let control = BodyControl::from(verified);
        proof {
            assert(control == verified.spec_get());
            crate::control::lemma_reach_limit_bound(
                old(model).player.arm.elbow.point.distance
                    + old(model).player.arm.hand.point.distance,
            );
        }
        run_tick(model, control, dt);
        control
    }
}

/// The physics pipeline of one tick, on an already-verified control:
/// gravity, hold query, history and speed model, locomotion, jump,
/// integration, arm actuation, impulse feedback, hold outcome and
/// collision resolution.
#[verifier::rlimit(100)]
fn run_tick(model: &mut Model, control: BodyControl, dt: i64)
    requires
        model_wf(*old(model)),
        control_wf(control),
        spec_v_len(control.hand_target) <= 3_000_000_000,
        dt >= 0,
    ensures
        model_wf(*final(model)),
        spec_step_holds(*old(model), control, dt, *final(model)),
{
    let ghost gn0 = old(model).player.ground_normal;
    let ghost c1g = spec_gravity(old(model).player.center, dt);
    let ghost center_ptg = PhysicsPoint {
        position: c1g.position,
        radius: 0i64,
        velocity: c1g.velocity,
        mass: c1g.mass,
    };
    let ghost handg = old(model).player.arm.spec_get_skeleton(center_ptg).2;
    let ghost hold1g: Option<Vec2> = if control.hold {
        match crate::body::spec_find_hold(old(model).level.surfaces@, handg, 0) {
            Option::Some(pt) => Option::Some(pt),
            Option::None => old(model).player.holding_to,
        }
    } else {
        Option::None
    };
    // Gravity.
    model.player.center.velocity = v_clamp_box(
        v_add(model.player.center.velocity, v_scale(Vec2 { x: 0, y: GRAVITY_Y }, dt)),
        VEL_LIMIT,
    );
    proof {
        assert(model.player.center == c1g);
    }
    // Hold query.
    if control.hold {
        model.player.try_holding(&model.level.surfaces);
    } else {
        model.player.holding_to = Option::None;
    }
    proof {
        assert(model.player.holding_to == hold1g);
    }
    // Record the hand and update the speed model.
    let center_pt = model.player.center_point();
    let (_, _, hand) = model.player.arm.get_skeleton(&center_pt);
    proof {
        assert(center_pt == center_ptg);
        assert(hand == handg);
    }
    let max_reach = model.player.arm.max_reach();
    let rec_hand = v_fdiv(v_sub(hand.position, model.player.center.position), max_reach);
    let state = BodyMovementState { time: model.player.history.time, hand: rec_hand };
    model.player.history.update(state, dt);
    let ghost t2g = sat_i64(old(model).player.history.time + dt);
    let ghost states2g = spec_evict(
        old(model).player.history.states@,
        sat64(t2g - RECORD_LENGTH),
    ).push(BodyMovementState { time: t2g, hand: rec_hand });
    proof {
        assert(model.player.history.time == t2g);
        assert(model.player.history.states@ == states2g);
    }
    let info = model.player.history.analyze();
    let stats = info.calc_stats();
    proof {
        assert(stats == spec_calc_stats(spec_analyze_seq(states2g)));
    }
    // Locomotion.
    let direction = match model.player.ground_normal {
        Option::Some(n) => v_neg(rotate_90(n)),
        Option::None => Vec2 { x: UNIT, y: 0 },
    };
    let target_speed = crate::fixed::fx_mul(control.move_speed, stats.move_speed);
    let delta_speed = crate::fixed::fx_sub(target_speed, model.player.center.velocity.x);
    proof {
        crate::fixed::lemma_i64_product_fits(model.player.center.velocity.x as int,
            delta_speed as int);
    }
    let speeding = (model.player.center.velocity.x as i128) * (delta_speed as i128) > 0;
    let acceleration = match model.player.ground_normal {
        Option::Some(n) => if speeding {
            GROUND_ACCELERATION
        } else {
            GROUND_DECELERATION
        },
        Option::None => AIR_ACCELERATION,
    };
    let cap = crate::fixed::fx_mul(acceleration, dt);
    proof {
        crate::fixed::lemma_tdiv_mag(acceleration * dt, UNIT as int);
        vstd::arithmetic::div_mod::lemma_div_pos_is_pos(acceleration * dt, UNIT as int);
        assert(acceleration * dt >= 0) by (nonlinear_arith)
            requires acceleration >= 0, dt >= 0;
    }
    let dv = crate::fixed::fx_clamp_abs(delta_speed, cap);
    model.player.center.velocity = v_clamp_box(
        v_add(model.player.center.velocity, v_scale(direction, dv)),
        VEL_LIMIT,
    );
    let ghost c2g = spec_locomotion(c1g, gn0, control.move_speed, stats.move_speed, dt);
    proof {
        assert(model.player.center == c2g);
    }
    // Jump.
    match model.player.ground_normal {
        Option::Some(n) => {
            if control.jump {
                let arm_imp = model.player.arm.impulse();
                let kick = v_add(
                    v_scale(n, JUMP_STRENGTH),
                    v_fdiv(v_scale(arm_imp, JUMP_ARM_FACTOR), model.player.center.mass),
                );
                model.player.center.velocity = v_clamp_box(
                    v_add(model.player.center.velocity, kick),
                    VEL_LIMIT,
                );
            }
        },
        Option::None => {},
    }
    let ghost c3g = spec_jump(c2g, gn0, control.jump, old(model).player.arm);
    proof {
        assert(model.player.center == c3g);
    }
    // Integrate the position.
    model.player.center.movement(dt);
    let ghost c4g = c3g.spec_movement(dt);
    proof {
        assert(model.player.center == c4g);
    }
    // Arm actuation.
    let relative_target = control.hand_target;
    let hold_vec: Option<Vec2> = match model.player.holding_to {
        Option::Some(p) => Option::Some(v_sub(p, model.player.center.position)),
        Option::None => Option::None,
    };
    let ghost hold_vecg: Option<Vec2> = match hold1g {
        Option::Some(pt) => Option::Some(spec_v_sub(pt, c4g.position)),
        Option::None => Option::None,
    };
    proof {
        assert(hold_vec == hold_vecg);
    }
    let body_imp = model.player.center.impulse();
    proof {
        assert(body_imp == spec_v_scale(c4g.velocity, c4g.mass as int));
    }
    let (imp, release) = model.player.arm.control(relative_target, hold_vec, body_imp, dt);
    let ghost armcg = old(model).player.arm.spec_control(
        control.hand_target,
        hold_vecg,
        spec_v_scale(c4g.velocity, c4g.mass as int),
        dt,
    );
    proof {
        assert(model.player.arm == armcg.0 && imp == armcg.1 && release == armcg.2);
    }
    // Back arm actuation toward the mirrored target.
    let polar = PolarPoint::from_cartesian(relative_target);
    let back_angle = Angle::new(polar.angle.delta_to(Angle::new(HALF_TURN)));
    let back_polar = PolarPoint { distance: polar.distance, angle: back_angle };
    proof {
        crate::trig::lemma_arg_range(relative_target);
        crate::angle::lemma_norm_angle_range(HALF_TURN as int);
        lemma_back_target_bounded(relative_target);
    }
    let back_target = back_polar.to_cartesian();
    proof {
        assert(back_target == spec_back_target(control.hand_target));
    }
    let (_imp_back, _release_back) = model.player.arm_back.control(back_target, Option::None,
        body_imp, dt);
    proof {
        assert(model.player.arm_back == old(model).player.arm_back.spec_control(
            spec_back_target(control.hand_target),
            Option::None,
            spec_v_scale(c4g.velocity, c4g.mass as int),
            dt,
        ).0);
    }
    // Apply the arm's reaction impulse.
    model.player.center.velocity = v_clamp_box(
        v_sub(model.player.center.velocity, v_fdiv(imp, model.player.center.mass)),
        VEL_LIMIT,
    );
    let ghost c5g = PhysicsBody {
        velocity: spec_v_clamp_box(
            spec_v_sub(c4g.velocity, spec_v_fdiv(armcg.1, c4g.mass as int)),
            VEL_LIMIT as int,
        ),
        ..c4g
    };
    proof {
        assert(model.player.center == c5g);
    }
    // Hold outcome.
    if release {
        model.player.holding_to = Option::None;
    } else {
        match hold_vec {
            Option::Some(hv) => {
                if v_len(hv) > max_reach {
                    let anchor = match model.player.holding_to {
                        Option::Some(p) => p,
                        Option::None => {
                            proof {
                                assert(false);
                            }
                            Vec2 { x: 0, y: 0 }
                        },
                    };
                    model.player.center.position = v_clamp_box(
                        v_sub(anchor, v_scale(normalize_or_zero(hv), max_reach)),
                        COLLIDER_LIMIT,
                    );
                }
            },
            Option::None => {},
        }
    }
    let ghost snapg = spec_hold_snap(c5g, hold1g, hold_vecg, release,
        (old(model).player.arm.elbow.point.distance + old(model).player.arm.hand.point.distance)
            as i64);
    proof {
        assert(max_reach as int == old(model).player.arm.elbow.point.distance + old(
            model,
        ).player.arm.hand.point.distance);
        assert(model.player.center == snapg.0);
        assert(model.player.holding_to == snapg.1);
    }
    // Collisions.
    let idx = model.player.collide(&model.level.surfaces);
    model.surface_collision = idx;
}

/// The back arm's mirrored target stays within the arithmetic bounds
/// whenever the hand target does.
proof fn lemma_back_target_bounded(hand_target: Vec2)
    requires
        spec_v_len(hand_target) <= 3_000_000_000,
    ensures
        bounded_vec2(spec_back_target(hand_target), 0x4000_0000_0000_0000),
{
    let polar = PolarPoint::spec_from_cartesian(hand_target);
    let back_angle = Angle {
        raw: norm_angle(polar.angle.spec_delta_to(Angle { raw: HALF_TURN })) as i64,
    };
    crate::angle::lemma_norm_angle_range(polar.angle.spec_delta_to(Angle { raw: HALF_TURN }));
    assert(len2(hand_target) >= 0) by (nonlinear_arith)
        requires len2(hand_target) == (hand_target.x as int) * (hand_target.x as int)
            + (hand_target.y as int) * (hand_target.y as int);
    crate::fixed::lemma_isqrt_exists(len2(hand_target));
    assert(polar.distance >= 0);
    let u = crate::trig::spec_unit_vec(back_angle.raw as int);
    crate::trig::lemma_cos_full_range(back_angle.raw as int);
    crate::trig::lemma_sin_full_range(back_angle.raw as int);
    crate::trig::lemma_clip_in_disc(
        crate::trig::cos_full(back_angle.raw as int),
        crate::trig::sin_full(back_angle.raw as int),
    );
    assert(bounded_vec2(u, UNIT as int)) by (nonlinear_arith)
        requires
            (u.x as int) * (u.x as int) + (u.y as int) * (u.y as int) <= (UNIT as int) * (UNIT
                as int),
            UNIT as int == 1000;
    assert(polar.distance <= 3_000_000_000);
    crate::collider::lemma_scale_comp_bounded(u, polar.distance);
}

impl Model {
    /// A fresh simulation of a level: the player spawns at the level's
    /// spawn point.
    pub fn new(level: Level) -> (r: Model)
        requires
            level_wf(level),
        ensures
            model_wf(r),
            r.level == level,
            r.surface_collision == Option::<usize>::None,
            r.player.center.position == level.spawn_point,
            r.player.holding_to == Option::<Vec2>::None,
            r.player.ground_normal == Option::<Vec2>::None,
            r.player.history.time == 0,
            r.player.history.states@ == Seq::<BodyMovementState>::empty(),
            r.player.arm.elbow.point.distance == 700,
            r.player.arm.hand.point.distance == 800,
            r.player.arm_back == r.player.arm,
    {
        let player = Body::new(level.spawn_point);
        Model { player, level, surface_collision: Option::None }
    }

    /// Advances the simulation by one tick: verifies the control,
    /// writes the clamped control back, and runs the physics pipeline.
    pub fn update(&mut self, player_control: &mut BodyControl, delta_time: i64)
        requires
            model_wf(*old(self)),
            control_wf(*old(player_control)),
            delta_time >= 0,
        ensures
            model_wf(*final(self)),
            control_wf(*final(player_control)),
            spec_step_holds(*old(self), *final(player_control), delta_time, *final(self)),
            crate::control::spec_control_clamped(
                *final(player_control),
                spec_reach_limit(
                    old(self).player.arm.elbow.point.distance
                        + old(self).player.arm.hand.point.distance,
                ),
            ),
    {
        let logic = Logic { delta_time, player_control: *player_control };
        let verified = logic.process(self);
        *player_control = verified;
    }
}

} // verus!
