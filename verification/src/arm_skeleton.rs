//! The two-bone arm: polar joints, forward kinematics, analytic
//! inverse kinematics, rate-limited actuation and the hold-force
//! budget.

use vstd::prelude::*;

use crate::angle::{angle_wf, norm_angle, Angle, HALF_TURN};
use crate::fixed::{
    fx_add, fx_clamp_abs, fx_mul, fx_sub, sat64, sat_i64, spec_abs, spec_clamp, spec_fmul, tdiv,
    UNIT,
};
use crate::point::PhysicsPoint;
use crate::trig::{acos_raw, lemma_clip_in_disc, spec_acos_raw, spec_arg_raw, spec_unit_vec,
    unit_vec, v_arg};
use crate::vector::{
    len2, lemma_scale_in_disc, lemma_triangle, rotate_90, spec_normalize, spec_rot90,
    spec_scale_to, spec_v_add, spec_v_dot, spec_v_len, spec_v_neg, spec_v_scale, spec_v_sub,
    normalize_or_zero, v_add, v_dot, v_len, v_neg, v_scale, v_scale_to, v_sub, v_zero, Vec2,
};

verus! {

/// Proportional gain from angle error to target angular velocity.
pub const ANGLE_GAIN: i64 = 5000;

/// Largest angular acceleration of the elbow joint, raw per second
/// squared.
pub const ELBOW_ACCELERATION: i64 = 40_000;

/// Largest angular acceleration of the hand joint, raw per second
/// squared.
pub const HAND_ACCELERATION: i64 = 60_000;

/// Largest angular speed of a joint, raw per second.
pub const MAX_ANGULAR_VELOCITY: i64 = 15_000;

/// The hold-force budget spent per tick while hanging on.
pub const MAX_HOLD_FORCE: i64 = 300_000;

/// Largest bone length the skeleton accepts.
pub const ARM_LIMIT: i64 = 1_000_000_000;

/// A point in polar coordinates relative to its parent joint.
#[derive(Clone, Copy, Debug, PartialEq, Eq, Structural)]
pub struct PolarPoint {
    pub distance: i64,
    /// Angle to the positive direction of the x axis.
    pub angle: Angle,
}

/// A polar point with angular velocity and the joint's radius and
/// mass.
#[derive(Clone, Copy, Debug, PartialEq, Eq, Structural)]
pub struct PolarPhysicsPoint {
    pub point: PolarPoint,
    /// Angular velocity, raw angle units per second.
    pub velocity: i64,
    pub radius: i64,
    pub mass: i64,
}

/// The two-bone arm skeleton.
#[derive(Clone, Copy, Debug, PartialEq, Eq, Structural)]
pub struct ArmSkeleton {
    /// Position of the shoulder relative to the body position.
    pub shoulder: PhysicsPoint,
    /// Elbow position in polar coordinates relative to the shoulder.
    pub elbow: PolarPhysicsPoint,
    /// Hand position in polar coordinates relative to the elbow.
    pub hand: PolarPhysicsPoint,
}

/// The cartesian offset of a polar point: the unit direction of its
/// angle scaled by its distance.
pub open spec fn spec_polar_vec(distance: i64, angle: Angle) -> Vec2 {
    spec_v_scale(spec_unit_vec(angle.raw as int), distance as int)
}

/// A well-formed joint: normalized angle, bone length in
/// `[1, ARM_LIMIT]`.
pub open spec fn joint_wf(p: PolarPhysicsPoint) -> bool {
    angle_wf(p.point.angle) && 1 <= p.point.distance <= ARM_LIMIT && p.radius >= 0 && p.mass >= 1
}

/// A well-formed skeleton: both bones well-formed.
pub open spec fn arm_wf(s: ArmSkeleton) -> bool {
    joint_wf(s.elbow) && joint_wf(s.hand)
}

impl PolarPoint {
    /// The cartesian offset of this polar point.
    pub fn to_cartesian(self) -> (r: Vec2)
        requires
            angle_wf(self.angle),
        ensures
            r == spec_polar_vec(self.distance, self.angle),
    {
        v_scale(unit_vec(self.angle), self.distance)
    }

    /// The polar form of a cartesian offset: its length and its angle.
    pub open spec fn spec_from_cartesian(pos: Vec2) -> PolarPoint {
        PolarPoint {
            distance: sat_i64(spec_v_len(pos)),
            angle: Angle { raw: spec_arg_raw(pos) as i64 },
        }
    }

    /// The polar form of a cartesian offset.
    pub fn from_cartesian(pos: Vec2) -> (r: PolarPoint)
        ensures
            r == PolarPoint::spec_from_cartesian(pos),
            angle_wf(r.angle),
            r.distance >= 0,
    {
        proof {
            crate::trig::lemma_arg_range(pos);
            assert(len2(pos) >= 0) by (nonlinear_arith)
                requires len2(pos) == (pos.x as int) * (pos.x as int) + (pos.y as int) * (pos.y
                    as int);
            crate::fixed::lemma_isqrt_exists(len2(pos));
        }
        PolarPoint { distance: v_len(pos), angle: v_arg(pos) }
    }
}

impl PolarPhysicsPoint {
    /// The joint composed onto its parent: the polar offset becomes a
    /// world position; the parent's velocity is inherited.
    pub open spec fn spec_relative(self, point: PhysicsPoint) -> PhysicsPoint {
        PhysicsPoint {
            position: spec_v_add(spec_polar_vec(self.point.distance, self.point.angle),
                point.position),
            velocity: point.velocity,
            radius: self.radius,
            mass: self.mass,
        }
    }

    /// The joint composed onto its parent frame.
    pub fn relative(self, point: &PhysicsPoint) -> (r: PhysicsPoint)
        requires
            angle_wf(self.point.angle),
        ensures
            r == self.spec_relative(*point),
    {
        PhysicsPoint {
            position: v_add(self.point.to_cartesian(), point.position),
            velocity: point.velocity,
            radius: self.radius,
            mass: self.mass,
        }
    }

    /// A joint at rest whose polar offset is the cartesian position of
    /// the given point.
    pub open spec fn spec_from_point(point: PhysicsPoint) -> PolarPhysicsPoint {
        PolarPhysicsPoint {
            point: PolarPoint::spec_from_cartesian(point.position),
            velocity: 0,
            radius: point.radius,
            mass: point.mass,
        }
    }

    /// A joint at rest from a cartesian point.
    pub fn from_point(point: PhysicsPoint) -> (r: PolarPhysicsPoint)
        ensures
            r == PolarPhysicsPoint::spec_from_point(point),
    {
        PolarPhysicsPoint {
            point: PolarPoint::from_cartesian(point.position),
            velocity: 0,
            radius: point.radius,
            mass: point.mass,
        }
    }
}

impl ArmSkeleton {
    /// Constructs an arm skeleton from the relative positions of the
    /// shoulder w.r.t. the body, the elbow w.r.t. the shoulder, and
    /// the hand w.r.t. the elbow.
    pub fn new(shoulder: PhysicsPoint, elbow: PhysicsPoint, hand: PhysicsPoint) -> (r: ArmSkeleton)
        requires
            1 <= spec_v_len(elbow.position) <= ARM_LIMIT as int,
            1 <= spec_v_len(hand.position) <= ARM_LIMIT as int,
            elbow.radius >= 0,
            elbow.mass >= 1,
            hand.radius >= 0,
            hand.mass >= 1,
        ensures
            r == (ArmSkeleton {
                shoulder,
                elbow: PolarPhysicsPoint::spec_from_point(elbow),
                hand: PolarPhysicsPoint::spec_from_point(hand),
            }),
            arm_wf(r),
    {
        proof {
            crate::trig::lemma_arg_range(elbow.position);
            crate::trig::lemma_arg_range(hand.position);
        }
        ArmSkeleton {
            shoulder,
            elbow: PolarPhysicsPoint::from_point(elbow),
            hand: PolarPhysicsPoint::from_point(hand),
        }
    }

    /// The farthest distance from the shoulder the hand can reach: the
    /// sum of the two bone lengths.
    pub fn max_reach(&self) -> (r: i64)
        requires
            arm_wf(*self),
        ensures
            r as int == self.elbow.point.distance + self.hand.point.distance,
            2 <= r <= 2 * ARM_LIMIT,
    {
        fx_add(self.elbow.point.distance, self.hand.point.distance)
    }

    /// The hand's absolute angle: the elbow's angle composed with the
    /// hand's relative angle.
    pub open spec fn spec_hand_angle(self) -> Angle {
        self.hand.point.angle.spec_plus(self.elbow.point.angle)
    }

    /// The linear momentum the two joints carry from their angular
    /// velocities: for each joint, speed along the bone's perpendicular
    /// times the joint mass.
    pub open spec fn spec_impulse(self) -> Vec2 {
        let elbow_speed = spec_fmul(self.elbow.velocity as int, self.elbow.point.distance as int);
        let elbow_dir = spec_rot90(spec_unit_vec(self.elbow.point.angle.raw as int));
        let elbow_impulse = spec_v_scale(spec_v_scale(elbow_dir, elbow_speed),
            self.elbow.mass as int);
        let hand_dir = spec_rot90(spec_unit_vec(self.spec_hand_angle().raw as int));
        let hand_speed = sat64(elbow_speed + spec_fmul(self.hand.velocity as int,
            self.hand.point.distance as int));
        let hand_impulse = spec_v_scale(spec_v_scale(hand_dir, hand_speed), self.hand.mass as int);
        spec_v_add(elbow_impulse, hand_impulse)
    }

    /// The linear momentum the two joints carry.
    pub fn impulse(&self) -> (r: Vec2)
        requires
            arm_wf(*self),
        ensures
            r == self.spec_impulse(),
    {
        let elbow_speed = fx_mul(self.elbow.velocity, self.elbow.point.distance);
        let elbow_dir = rotate_90(unit_vec(self.elbow.point.angle));
        let elbow_impulse = v_scale(v_scale(elbow_dir, elbow_speed), self.elbow.mass);
        let hand_angle = self.hand.point.angle.plus(self.elbow.point.angle);
        let hand_dir = rotate_90(unit_vec(hand_angle));
        let hand_speed = fx_add(elbow_speed, fx_mul(self.hand.velocity, self.hand.point.distance));
        let hand_impulse = v_scale(v_scale(hand_dir, hand_speed), self.hand.mass);
        v_add(elbow_impulse, hand_impulse)
    }

    /// The skeleton in world coordinates: shoulder, elbow and hand.
    pub open spec fn spec_get_skeleton(self, body: PhysicsPoint) -> (PhysicsPoint, PhysicsPoint,
        PhysicsPoint) {
        let shoulder = self.shoulder.spec_relative(body);
        let elbow = self.elbow.spec_relative(shoulder);
        let hand_joint = PolarPhysicsPoint {
            point: PolarPoint { distance: self.hand.point.distance, angle: self.spec_hand_angle() },
            velocity: self.hand.velocity,
            radius: self.hand.radius,
            mass: self.hand.mass,
        };
        let hand = hand_joint.spec_relative(elbow);
        (shoulder, elbow, hand)
    }

    /// The skeleton in world coordinates as `(shoulder, elbow, hand)`.
    pub fn get_skeleton(&self, body: &PhysicsPoint) -> (r: (PhysicsPoint, PhysicsPoint,
        PhysicsPoint))
        requires
            arm_wf(*self),
        ensures
            r == self.spec_get_skeleton(*body),
    {
        let shoulder = self.shoulder.relative(body);
        let elbow = self.elbow.relative(&shoulder);
        let hand_joint = PolarPhysicsPoint {
            point: PolarPoint {
                distance: self.hand.point.distance,
                angle: self.hand.point.angle.plus(self.elbow.point.angle),
            },
            velocity: self.hand.velocity,
            radius: self.hand.radius,
            mass: self.hand.mass,
        };
        let hand = hand_joint.relative(&elbow);
        (shoulder, elbow, hand)
    }
    /// The analytic inverse-kinematics solution for a hand target
    /// relative to the shoulder: the elbow's world target angle and
    /// the hand's relative target angle, in raw units, or nothing for
    /// a zero-length target.  The target's distance is first clamped
    /// into the reachable annulus; the law-of-cosines ratios are
    /// clamped into `[-UNIT, UNIT]` before the arccosine.
    pub open spec fn spec_solve_angles(self, target: Vec2) -> Option<(i64, i64)> {
        let ln = spec_v_len(target);
        let e = self.elbow.point.distance as int;
        let h = self.hand.point.distance as int;
        let max_len = e + h;
        let min_len = e - h;
        if ln == 0 {
            Option::None
        } else {
            let t2 = if ln > max_len {
                spec_scale_to(target, max_len)
            } else if ln < min_len {
                spec_scale_to(target, min_len)
            } else {
                target
            };
            let l2 = if ln > max_len {
                max_len
            } else if ln < min_len {
                min_len
            } else {
                ln
            };
            let hand_arg = spec_clamp(tdiv((e * e + h * h - l2 * l2) * UNIT, 2 * (e * h)),
                -(UNIT as int), UNIT as int);
            let hand_target = HALF_TURN - spec_acos_raw(hand_arg);
            let elbow_arg = spec_clamp(tdiv((l2 * l2 + e * e - h * h) * UNIT, 2 * (e * l2)),
                -(UNIT as int), UNIT as int);
            let elbow_target = (Angle { raw: spec_acos_raw(elbow_arg) as i64 }).spec_delta_to(
                Angle { raw: spec_arg_raw(t2) as i64 },
            );
            Option::Some((elbow_target as i64, hand_target as i64))
        }
    }

    /// The analytic inverse-kinematics solution.
    pub fn solve_angles(&self, target: Vec2) -> (r: Option<(i64, i64)>)
        requires
            arm_wf(*self),
            spec_abs(target.x as int) <= 0x4000_0000_0000_0000,
            spec_abs(target.y as int) <= 0x4000_0000_0000_0000,
        ensures
            r == self.spec_solve_angles(target),
            r matches Option::Some(v) ==> -(HALF_TURN as int) <= v.0 as int <= HALF_TURN as int
                && 0 <= v.1 as int <= HALF_TURN as int,
    {
        proof {
            assert(len2(target) <= (i64::MAX as int) * (i64::MAX as int)) by (nonlinear_arith)
                requires
                    len2(target) == (target.x as int) * (target.x as int) + (target.y as int)
                        * (target.y as int),
                    -0x4000_0000_0000_0000 <= target.x as int <= 0x4000_0000_0000_0000,
                    -0x4000_0000_0000_0000 <= target.y as int <= 0x4000_0000_0000_0000;
        }
        let ln = v_len(target);
        let e = self.elbow.point.distance;
        let h = self.hand.point.distance;
        let max_len = e + h;
        let min_len = e - h;
        if ln == 0 {
            Option::None
        } else {
            proof {
                crate::fixed::lemma_isqrt_exists(len2(target));
                crate::fixed::lemma_isqrt_unique(
                    ln as int,
                    crate::fixed::isqrt_spec(len2(target)),
                    len2(target),
                );
                assert(len2(target) >= 1) by (nonlinear_arith)
                    requires
                        len2(target) >= (ln as int) * (ln as int),
                        ln as int >= 1;
            }
            let t2 = if ln > max_len {
                v_scale_to(target, max_len)
            } else if ln < min_len {
                v_scale_to(target, min_len)
            } else {
                target
            };
            let l2 = if ln > max_len {
                max_len
            } else if ln < min_len {
                min_len
            } else {
                ln
            };
            proof {
                crate::fixed::lemma_i64_product_fits(e as int, h as int);
                crate::fixed::lemma_i64_product_fits(e as int, e as int);
                crate::fixed::lemma_i64_product_fits(h as int, h as int);
                crate::fixed::lemma_i64_product_fits(l2 as int, l2 as int);
                crate::fixed::lemma_i64_product_fits(e as int, l2 as int);
                assert((e as int) * (e as int) <= 4_000_000_000_000_000_000 && (h as int) * (h
                    as int) <= 4_000_000_000_000_000_000 && (l2 as int) * (l2 as int)
                    <= 4_000_000_000_000_000_000 && (e as int) * (h as int)
                    <= 4_000_000_000_000_000_000 && (e as int) * (l2 as int)
                    <= 4_000_000_000_000_000_000 && (e as int) * (h as int) >= 1 && (e as int)
                    * (l2 as int) >= 1) by (nonlinear_arith)
                    requires
                        1 <= e as int <= 2_000_000_000,
                        1 <= h as int <= 2_000_000_000,
                        1 <= l2 as int <= 2_000_000_000;
            }
            let e2: i128 = (e as i128) * (e as i128);
            let h2: i128 = (h as i128) * (h as i128);
            let l2sq: i128 = (l2 as i128) * (l2 as i128);
            proof {
                assert(-4_000_000_000_000_000_000 <= e2 + h2 - l2sq
                    && e2 + h2 - l2sq <= 8_000_000_000_000_000_000);
                assert(-4_000_000_000_000_000_000 <= l2sq + e2 - h2
                    && l2sq + e2 - h2 <= 8_000_000_000_000_000_000);
            }
            let num1: i128 = (e2 + h2 - l2sq) * (UNIT as i128);
            let den1: i128 = 2 * ((e as i128) * (h as i128));
            let q1 = crate::fixed::tdiv_i128(num1, den1);
            let hand_arg: i64 = if q1 > UNIT as i128 {
                UNIT
            } else if q1 < -(UNIT as i128) {
                -UNIT
            } else {
                q1 as i64
            };
            let hand_target = HALF_TURN - acos_raw(hand_arg);
            let num2: i128 = (l2sq + e2 - h2) * (UNIT as i128);
            let den2: i128 = 2 * ((e as i128) * (l2 as i128));
            let q2 = crate::fixed::tdiv_i128(num2, den2);
            let elbow_arg: i64 = if q2 > UNIT as i128 {
                UNIT
            } else if q2 < -(UNIT as i128) {
                -UNIT
            } else {
                q2 as i64
            };
            let elbow_target = (Angle { raw: acos_raw(elbow_arg) }).delta_to(v_arg(t2));
            Option::Some((elbow_target, hand_target))
        }
    }

    /// The actuation step while not holding: each joint's angular
    /// velocity is driven toward a proportional target (gain times the
    /// angle error, rate-limited), with the approach capped by the
    /// joint's maximum angular acceleration over the tick; the angles
    /// advance by the new velocities, and the accelerations yield the
    /// joints' reaction impulse.
    pub open spec fn spec_actuate(self, elbow_t: i64, hand_t: i64, delta_time: i64) -> (
        ArmSkeleton,
        Vec2,
    ) {
        let ev_target = spec_clamp(
            spec_fmul(
                self.elbow.point.angle.spec_delta_to(Angle { raw: norm_angle(elbow_t as int) as i64 }),
                ANGLE_GAIN as int,
            ),
            -(MAX_ANGULAR_VELOCITY as int),
            MAX_ANGULAR_VELOCITY as int,
        );
        let hv_target = spec_clamp(
            spec_fmul(
                self.hand.point.angle.spec_delta_to(Angle { raw: norm_angle(hand_t as int) as i64 }),
                ANGLE_GAIN as int,
            ),
            -(MAX_ANGULAR_VELOCITY as int),
            MAX_ANGULAR_VELOCITY as int,
        );
        let e_cap = spec_fmul(ELBOW_ACCELERATION as int, delta_time as int);
        let h_cap = spec_fmul(HAND_ACCELERATION as int, delta_time as int);
        let e_acc = spec_clamp(sat64(ev_target - self.elbow.velocity), -e_cap, e_cap);
        let h_acc = spec_clamp(sat64(hv_target - self.hand.velocity), -h_cap, h_cap);
        let e_vel = sat_i64(self.elbow.velocity + e_acc);
        let h_vel = sat_i64(self.hand.velocity + h_acc);
        let e_dir = spec_rot90(spec_unit_vec(self.elbow.point.angle.raw as int));
        let e_imp = spec_v_scale(spec_v_scale(e_dir, e_acc), self.elbow.mass as int);
        let h_dir = spec_rot90(spec_unit_vec(self.spec_hand_angle().raw as int));
        let h_imp = spec_v_scale(spec_v_scale(h_dir, h_acc), self.hand.mass as int);
        let skel = ArmSkeleton {
            shoulder: self.shoulder,
            elbow: PolarPhysicsPoint {
                point: PolarPoint {
                    distance: self.elbow.point.distance,
                    angle: self.elbow.point.angle.spec_shifted(spec_fmul(e_vel as int,
                        delta_time as int)),
                },
                velocity: e_vel,
                radius: self.elbow.radius,
                mass: self.elbow.mass,
            },
            hand: PolarPhysicsPoint {
                point: PolarPoint {
                    distance: self.hand.point.distance,
                    angle: self.hand.point.angle.spec_shifted(spec_fmul(h_vel as int,
                        delta_time as int)),
                },
                velocity: h_vel,
                radius: self.hand.radius,
                mass: self.hand.mass,
            },
        };
        (skel, spec_v_add(e_imp, h_imp))
    }

    /// The actuation step while not holding.
    fn actuate(&mut self, elbow_t: i64, hand_t: i64, delta_time: i64) -> (r: Vec2)
        requires
            arm_wf(*old(self)),
            delta_time >= 0,
        ensures
            (*final(self), r) == old(self).spec_actuate(elbow_t, hand_t, delta_time),
            arm_wf(*final(self)),
    {
        let ev_target = fx_clamp_abs(
            fx_mul(self.elbow.point.angle.delta_to(Angle::new(elbow_t)), ANGLE_GAIN),
            MAX_ANGULAR_VELOCITY,
        );
        let hv_target = fx_clamp_abs(
            fx_mul(self.hand.point.angle.delta_to(Angle::new(hand_t)), ANGLE_GAIN),
            MAX_ANGULAR_VELOCITY,
        );
        let e_cap = fx_mul(ELBOW_ACCELERATION, delta_time);
        let h_cap = fx_mul(HAND_ACCELERATION, delta_time);
        proof {
            crate::fixed::lemma_tdiv_mag(ELBOW_ACCELERATION * delta_time, UNIT as int);
            crate::fixed::lemma_tdiv_mag(HAND_ACCELERATION * delta_time, UNIT as int);
            assert(e_cap >= 0 && h_cap >= 0) by (nonlinear_arith)
                requires
                    e_cap as int == sat64(tdiv(ELBOW_ACCELERATION * delta_time, UNIT as int)),
                    h_cap as int == sat64(tdiv(HAND_ACCELERATION * delta_time, UNIT as int)),
                    ELBOW_ACCELERATION * delta_time >= 0,
                    HAND_ACCELERATION * delta_time >= 0,
                    tdiv(ELBOW_ACCELERATION * delta_time, UNIT as int) == (ELBOW_ACCELERATION
                        * delta_time) / (UNIT as int),
                    tdiv(HAND_ACCELERATION * delta_time, UNIT as int) == (HAND_ACCELERATION
                        * delta_time) / (UNIT as int),
                    (ELBOW_ACCELERATION * delta_time) / (UNIT as int) >= 0,
                    (HAND_ACCELERATION * delta_time) / (UNIT as int) >= 0;
        }
        let e_acc = fx_clamp_abs(fx_sub(ev_target, self.elbow.velocity), e_cap);
        let h_acc = fx_clamp_abs(fx_sub(hv_target, self.hand.velocity), h_cap);
        let e_vel = fx_add(self.elbow.velocity, e_acc);
        let h_vel = fx_add(self.hand.velocity, h_acc);
        let e_dir = rotate_90(unit_vec(self.elbow.point.angle));
        let e_imp = v_scale(v_scale(e_dir, e_acc), self.elbow.mass);
        let h_dir = rotate_90(unit_vec(self.hand.point.angle.plus(self.elbow.point.angle)));
        let h_imp = v_scale(v_scale(h_dir, h_acc), self.hand.mass);
        self.elbow.point.angle = self.elbow.point.angle.shifted(fx_mul(e_vel, delta_time));
        self.hand.point.angle = self.hand.point.angle.shifted(fx_mul(h_vel, delta_time));
        self.elbow.velocity = e_vel;
        self.hand.velocity = h_vel;
        v_add(e_imp, h_imp)
    }

    /// The hold-force budget: when the anchor lies beyond the arm's
    /// reach, the momentum pulling the body away is paid out of a
    /// fixed budget; an overdrawn budget breaks the hold, otherwise
    /// what remains pulls the hand toward the free target.
    pub open spec fn spec_hold_budget(
        max_reach: int,
        target: Vec2,
        hold_v: Vec2,
        body_impulse: Vec2,
        delta_time: i64,
        imp0: Vec2,
    ) -> (Vec2, bool) {
        let stretched = spec_v_len(hold_v) > max_reach;
        let normal = spec_normalize(hold_v);
        let ip = spec_v_dot(spec_v_neg(body_impulse), normal);
        let paying = stretched && ip > 0;
        let force_left = if paying {
            sat64(MAX_HOLD_FORCE - ip)
        } else {
            MAX_HOLD_FORCE as int
        };
        let release = paying && force_left < 0;
        let imp1 = if paying && !release {
            spec_v_sub(imp0, spec_v_scale(normal, ip))
        } else {
            imp0
        };
        if release {
            (imp1, true)
        } else {
            let delta = spec_v_sub(target, hold_v);
            let pull = spec_v_scale(spec_normalize(delta), spec_fmul(force_left, delta_time as int));
            (spec_v_add(imp1, pull), false)
        }
    }

    /// The full control step: solve the inverse kinematics for the
    /// hold anchor or the free target; snap to the solution while
    /// holding, otherwise actuate toward it; then settle the
    /// hold-force budget.  Returns the total impulse the arm exerts
    /// and whether the hold broke.
    pub open spec fn spec_control(
        self,
        target: Vec2,
        hold: Option<Vec2>,
        body_impulse: Vec2,
        delta_time: i64,
    ) -> (ArmSkeleton, Vec2, bool) {
        let solve_target = match hold {
            Option::Some(hv) => hv,
            Option::None => target,
        };
        match self.spec_solve_angles(solve_target) {
            Option::None => (self, Vec2 { x: 0i64, y: 0i64 }, false),
            Option::Some(angles) => {
                let (skel1, imp0) = match hold {
                    Option::Some(hv) => (
                        ArmSkeleton {
                            shoulder: self.shoulder,
                            elbow: PolarPhysicsPoint {
                                point: PolarPoint {
                                    distance: self.elbow.point.distance,
                                    angle: Angle { raw: norm_angle(angles.0 as int) as i64 },
                                },
                                velocity: self.elbow.velocity,
                                radius: self.elbow.radius,
                                mass: self.elbow.mass,
                            },
                            hand: PolarPhysicsPoint {
                                point: PolarPoint {
                                    distance: self.hand.point.distance,
                                    angle: Angle { raw: norm_angle(angles.1 as int) as i64 },
                                },
                                velocity: self.hand.velocity,
                                radius: self.hand.radius,
                                mass: self.hand.mass,
                            },
                        },
                        Vec2 { x: 0i64, y: 0i64 },
                    ),
                    Option::None => self.spec_actuate(angles.0, angles.1, delta_time),
                };
                match hold {
                    Option::Some(hv) => {
                        let max_reach = self.elbow.point.distance + self.hand.point.distance;
                        let (imp, release) = ArmSkeleton::spec_hold_budget(max_reach, target, hv,
                            body_impulse, delta_time, imp0);
                        (skel1, imp, release)
                    },
                    Option::None => (skel1, imp0, false),
                }
            },
        }
    }

    /// Controls the bones toward the target (or the hold anchor) and
    /// returns the total impulse used by the skeleton and whether the
    /// hold broke.
    pub fn control(
        &mut self,
        target: Vec2,
        hold: Option<Vec2>,
        body_impulse: Vec2,
        delta_time: i64,
    ) -> (r: (Vec2, bool))
        requires
            arm_wf(*old(self)),
            delta_time >= 0,
            spec_abs(target.x as int) <= 0x4000_0000_0000_0000,
            spec_abs(target.y as int) <= 0x4000_0000_0000_0000,
            (hold matches Option::Some(hv) ==> spec_abs(hv.x as int) <= 0x4000_0000_0000_0000
                && spec_abs(hv.y as int) <= 0x4000_0000_0000_0000),
            spec_abs(body_impulse.x as int) <= 0x4000_0000_0000_0000,
            spec_abs(body_impulse.y as int) <= 0x4000_0000_0000_0000,
        ensures
            (*final(self), r.0, r.1) == old(self).spec_control(target, hold, body_impulse,
                delta_time),
            arm_wf(*final(self)),
    {
        let solve_target = match hold {
            Option::Some(hv) => hv,
            Option::None => target,
        };
        let solved = self.solve_angles(solve_target);
        match solved {
            Option::None => (v_zero(), false),
            Option::Some((elbow_t, hand_t)) => {
                let imp0 = match hold {
                    Option::Some(_) => {
                        self.elbow.point.angle = Angle::new(elbow_t);
                        self.hand.point.angle = Angle::new(hand_t);
                        v_zero()
                    },
                    Option::None => self.actuate(elbow_t, hand_t, delta_time),
                };
                match hold {
                    Option::Some(hv) => {
                        let max_reach = self.max_reach();
                        let stretched = v_len(hv) > max_reach;
                        let normal = normalize_or_zero(hv);
                        let ip = v_dot(v_neg(body_impulse), normal);
                        let paying = stretched && ip > 0;
                        let force_left = if paying {
                            fx_sub(MAX_HOLD_FORCE, ip)
                        } else {
                            MAX_HOLD_FORCE
                        };
                        let release = paying && force_left < 0;
                        let imp1 = if paying && !release {
                            v_sub(imp0, v_scale(normal, ip))
                        } else {
                            imp0
                        };
                        if release {
                            (imp1, true)
                        } else {
                            let delta = v_sub(target, hv);
                            let pull = v_scale(normalize_or_zero(delta), fx_mul(force_left,
                                delta_time));
                            (v_add(imp1, pull), false)
                        }
                    },
                    Option::None => (imp0, false),
                }
            },
        }
    }
}

/// Any pair of normalized joint angles keeps the reconstructed hand
/// within the arm's reach: the world offset assembled from two bones
/// of lengths `e` and `h` has length at most `e + h + 1` raw units —
/// the reach invariant of the inverse kinematics, for every solution
/// the solver can return.
pub proof fn lemma_reach_bound(e: i64, h: i64, a1: Angle, a2: Angle)
    requires
        1 <= e <= ARM_LIMIT,
        1 <= h <= ARM_LIMIT,
        angle_wf(a1),
        angle_wf(a2),
    ensures
        spec_v_len(spec_v_add(spec_polar_vec(e, a1), spec_polar_vec(h, a2))) <= e + h + 1,
{
    let u1 = spec_unit_vec(a1.raw as int);
    let u2 = spec_unit_vec(a2.raw as int);
    crate::trig::lemma_cos_full_range(a1.raw as int);
    crate::trig::lemma_sin_full_range(a1.raw as int);
    crate::trig::lemma_cos_full_range(a2.raw as int);
    crate::trig::lemma_sin_full_range(a2.raw as int);
    lemma_clip_in_disc(crate::trig::cos_full(a1.raw as int), crate::trig::sin_full(a1.raw as int));
    lemma_clip_in_disc(crate::trig::cos_full(a2.raw as int), crate::trig::sin_full(a2.raw as int));
    lemma_scale_in_disc(u1, e as int);
    lemma_scale_in_disc(u2, h as int);
    let v1 = spec_v_scale(u1, e as int);
    let v2 = spec_v_scale(u2, h as int);
    assert(spec_abs(v1.x as int) <= e && spec_abs(v1.y as int) <= e) by (nonlinear_arith)
        requires
            (v1.x as int) * (v1.x as int) + (v1.y as int) * (v1.y as int) <= (e as int) * (e
                as int),
            e >= 1;
    assert(spec_abs(v2.x as int) <= h && spec_abs(v2.y as int) <= h) by (nonlinear_arith)
        requires
            (v2.x as int) * (v2.x as int) + (v2.y as int) * (v2.y as int) <= (h as int) * (h
                as int),
            h >= 1;
    let w = spec_v_add(v1, v2);
    assert(w.x as int == v1.x + v2.x && w.y as int == v1.y + v2.y);
    assert(len2(v1) >= 0 && len2(v2) >= 0) by (nonlinear_arith)
        requires
            len2(v1) == (v1.x as int) * (v1.x as int) + (v1.y as int) * (v1.y as int),
            len2(v2) == (v2.x as int) * (v2.x as int) + (v2.y as int) * (v2.y as int);
    crate::fixed::lemma_isqrt_exists(len2(v1));
    crate::fixed::lemma_isqrt_exists(len2(v2));
    let la = crate::fixed::isqrt_spec(len2(v1));
    let lb = crate::fixed::isqrt_spec(len2(v2));
    assert(la <= e) by (nonlinear_arith)
        requires
            0 <= la,
            la * la <= len2(v1),
            len2(v1) <= (e as int) * (e as int),
            e >= 1;
    assert(lb <= h) by (nonlinear_arith)
        requires
            0 <= lb,
            lb * lb <= len2(v2),
            len2(v2) <= (h as int) * (h as int),
            h >= 1;
    let s2 = (v1.x + v2.x) * (v1.x + v2.x) + (v1.y + v2.y) * (v1.y + v2.y);
    assert(s2 >= 0) by (nonlinear_arith)
        requires s2 == (v1.x + v2.x) * (v1.x + v2.x) + (v1.y + v2.y) * (v1.y + v2.y);
    crate::fixed::lemma_isqrt_exists(s2);
    let lab = crate::fixed::isqrt_spec(s2);
    lemma_triangle(v1, v2, la, lb, lab);
    assert(len2(w) == s2);
    assert(spec_v_len(w) == sat64(lab));
}

/// The reach invariant of [`ArmSkeleton::solve_angles`]: whatever
/// angles the solver returns for any target, the hand position
/// reconstructed from them (elbow bone at the elbow target angle, hand
/// bone at the composed absolute angle) lies within the arm's maximum
/// reach, up to one raw unit of rounding.
pub proof fn lemma_solve_angles_within_reach(
    skel: ArmSkeleton,
    target: Vec2,
    elbow_t: i64,
    hand_t: i64,
)
    requires
        arm_wf(skel),
        skel.spec_solve_angles(target) == Option::Some((elbow_t, hand_t)),
    ensures
        spec_v_len(
            spec_v_add(
                spec_polar_vec(skel.elbow.point.distance,
                    Angle { raw: norm_angle(elbow_t as int) as i64 }),
                spec_polar_vec(skel.hand.point.distance,
                    Angle {
                        raw: norm_angle(norm_angle(hand_t as int) + norm_angle(elbow_t as int))
                            as i64,
                    }),
            ),
        ) <= skel.elbow.point.distance + skel.hand.point.distance + 1,
{
    crate::angle::lemma_norm_angle_range(elbow_t as int);
    crate::angle::lemma_norm_angle_range(hand_t as int);
    crate::angle::lemma_norm_angle_range(norm_angle(hand_t as int) + norm_angle(elbow_t as int));
    lemma_reach_bound(
        skel.elbow.point.distance,
        skel.hand.point.distance,
        Angle { raw: norm_angle(elbow_t as int) as i64 },
        Angle { raw: norm_angle(norm_angle(hand_t as int) + norm_angle(elbow_t as int)) as i64 },
    );
}

} // verus!
