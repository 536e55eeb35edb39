//! Control input and its verification.
//!
//! Raw controls are clamped into physically valid ranges at a single
//! choke point: [`BodyControl::verify`] produces the distinct
//! [`VerifiedBodyControl`] type, and only that type reaches the
//! physics step, so no unclamped input can slip through.  The clamp is
//! idempotent: a control already within every range comes back
//! unchanged.

use vstd::prelude::*;

use crate::body::{body_wf, Body};
use crate::collider::bounded_vec2;
use crate::fixed::{fx_clamp, fx_mul, spec_abs, spec_clamp, spec_fmul, UNIT};
use crate::vector::{
    clamp_len, len2, lemma_comps_le_len, lemma_len_le, spec_scale_to, spec_v_len, Vec2,
};

verus! {

/// The overreach tolerance of the hand-target clamp, as a fixed-point
/// factor: ten percent beyond the arm's reach, so the inverse
/// kinematics can still resolve near full extension.
pub const REACH_TOLERANCE: i64 = 1100;

/// Raw per-tick control input.
#[derive(Clone, Copy, Debug, PartialEq, Eq, Structural)]
pub struct BodyControl {
    /// Target position for the hand relative to the body.
    pub hand_target: Vec2,
    /// Expected in `[-UNIT, UNIT]` (clamped to the range if not),
    /// where positive is right and negative is left.
    pub move_speed: i64,
    /// Target height of the body above the feet.  Expected in
    /// `[0, UNIT]` (clamped to the range if not), where zero is
    /// tucking and one unit is fully extended.
    pub target_height: i64,
    /// Whether the hands are trying to hold onto an object.
    pub hold: bool,
    pub jump: bool,
}

/// A control whose scalars fit the arithmetic comfortably.
pub open spec fn control_wf(c: BodyControl) -> bool {
    bounded_vec2(c.hand_target, 0x4000_0000_0000_0000)
}

/// The hand-target length bound the clamp enforces for a given arm
/// reach.
pub open spec fn spec_reach_limit(max_reach: int) -> int {
    spec_fmul(max_reach, REACH_TOLERANCE as int)
}

/// A control within every clamp range for the given reach limit.
pub open spec fn spec_control_clamped(c: BodyControl, limit: int) -> bool {
    &&& spec_v_len(c.hand_target) <= limit
    &&& -(UNIT as int) <= c.move_speed <= UNIT as int
    &&& 0 <= c.target_height <= UNIT as int
}

/// A control that passed [`BodyControl::verify`]: the only input the
/// physics step accepts.  The wrapped control is reachable only
/// through `From`, never constructed directly.
#[derive(Clone, Copy, Debug, PartialEq, Eq, Structural)]
pub struct VerifiedBodyControl(pub(crate) BodyControl);

impl VerifiedBodyControl {
    /// The wrapped, clamped control.
    pub closed spec fn spec_get(self) -> BodyControl {
        self.0
    }
}

impl Default for BodyControl {
    /// The neutral control: no target, no movement, no hold, no jump.
    fn default() -> (r: BodyControl)
        ensures
            r == (BodyControl {
                hand_target: Vec2 { x: 0i64, y: 0i64 },
                move_speed: 0i64,
                target_height: 0i64,
                hold: false,
                jump: false,
            }),
    {
        BodyControl {
            hand_target: Vec2 { x: 0, y: 0 },
            move_speed: 0,
            target_height: 0,
            hold: false,
            jump: false,
        }
    }
}

impl From<VerifiedBodyControl> for BodyControl {
    /// Unwraps a verified control for reading.
    fn from(control: VerifiedBodyControl) -> (r: BodyControl) {
        control.0
    }
}

impl vstd::std_specs::convert::FromSpecImpl<VerifiedBodyControl> for BodyControl {
    open spec fn obeys_from_spec() -> bool {
        true
    }

    open spec fn from_spec(control: VerifiedBodyControl) -> BodyControl {
        control.spec_get()
    }
}

/// The reach limit is nonnegative and modest for any well-formed arm.
pub proof fn lemma_reach_limit_bound(max_reach: int)
    requires
        2 <= max_reach <= 2_000_000_000,
    ensures
        0 <= spec_reach_limit(max_reach) <= 3_000_000_000,
{
    crate::fixed::lemma_tdiv_mag(max_reach * REACH_TOLERANCE, UNIT as int);
    vstd::arithmetic::div_mod::lemma_div_pos_is_pos(max_reach * REACH_TOLERANCE, UNIT as int);
    assert(0 <= max_reach * REACH_TOLERANCE <= 2_200_000_000_000) by (nonlinear_arith)
        requires 2 <= max_reach <= 2_000_000_000, REACH_TOLERANCE == 1100;
    let t = crate::fixed::tdiv(max_reach * REACH_TOLERANCE, UNIT as int);
    assert(0 <= t <= 3_000_000_000) by (nonlinear_arith)
        requires
            spec_abs(t) * (UNIT as int) <= spec_abs(max_reach * REACH_TOLERANCE),
            t == (max_reach * REACH_TOLERANCE) / (UNIT as int),
            (max_reach * REACH_TOLERANCE) / (UNIT as int) >= 0,
            (t >= 0 ==> spec_abs(t) == t),
            spec_abs(max_reach * REACH_TOLERANCE) == max_reach * REACH_TOLERANCE,
            0 <= max_reach * REACH_TOLERANCE <= 2_200_000_000_000,
            UNIT as int == 1000;
}

impl BodyControl {
    /// Clamps the control into physically valid ranges: the hand
    /// target to at most the arm's reach plus the overreach tolerance,
    /// the move speed to `[-UNIT, UNIT]`, the target height to
    /// `[0, UNIT]`.  A control already within every range is returned
    /// unchanged, so verifying twice equals verifying once.
    pub fn verify(self, body: &Body) -> (r: VerifiedBodyControl)
        requires
            control_wf(self),
            body_wf(*body),
        ensures
            ({
                let limit = spec_reach_limit(
                    body.arm.elbow.point.distance + body.arm.hand.point.distance,
                );
                &&& spec_control_clamped(r.spec_get(), limit)
                &&& control_wf(r.spec_get())
                &&& r.spec_get().move_speed == spec_clamp(self.move_speed as int, -(UNIT as int),
                    UNIT as int)
                &&& r.spec_get().target_height == spec_clamp(self.target_height as int, 0, UNIT as int)
                &&& r.spec_get().hold == self.hold
                &&& r.spec_get().jump == self.jump
                &&& (spec_v_len(self.hand_target) <= limit ==> r.spec_get().hand_target
                    == self.hand_target)
                &&& (spec_control_clamped(self, limit) ==> r.spec_get() == self)
                &&& (spec_v_len(self.hand_target) > limit && len2(
                    spec_scale_to(self.hand_target, limit),
                ) <= limit * limit ==> r.spec_get().hand_target == spec_scale_to(self.hand_target, limit))
            }),
    {
        let max_reach = body.arm.max_reach();
        let limit = fx_mul(max_reach, REACH_TOLERANCE);
        proof {
            crate::fixed::lemma_tdiv_mag(max_reach * REACH_TOLERANCE, UNIT as int);
            assert(0 <= limit as int <= 3_000_000_000) by (nonlinear_arith)
                requires
                    limit as int == crate::fixed::sat64(crate::fixed::tdiv(max_reach
                        * REACH_TOLERANCE, UNIT as int)),
                    crate::fixed::tdiv(max_reach * REACH_TOLERANCE, UNIT as int) == (max_reach
                        * REACH_TOLERANCE) / (UNIT as int),
                    spec_abs(crate::fixed::tdiv(max_reach * REACH_TOLERANCE, UNIT as int)) * (UNIT
                        as int) <= spec_abs(max_reach * REACH_TOLERANCE),
                    0 <= spec_abs(crate::fixed::tdiv(max_reach * REACH_TOLERANCE, UNIT as int)),
                    spec_abs(max_reach * REACH_TOLERANCE) == max_reach * REACH_TOLERANCE,
                    2 <= max_reach <= 2_000_000_000,
                    REACH_TOLERANCE == 1100,
                    UNIT as int == 1000,
                    (max_reach * REACH_TOLERANCE) / (UNIT as int) >= 0;
            vstd::arithmetic::div_mod::lemma_div_pos_is_pos(max_reach * REACH_TOLERANCE,
                UNIT as int);
            assert(max_reach * REACH_TOLERANCE >= 0) by (nonlinear_arith)
                requires max_reach >= 2, REACH_TOLERANCE == 1100;
        }
        let hand_target = clamp_len(self.hand_target, limit);
        proof {
            if spec_v_len(self.hand_target) > limit as int {
                lemma_len_le(hand_target, limit as int);
            }
            lemma_comps_le_len(hand_target, limit as int);
        }
        VerifiedBodyControl(
            BodyControl {
                hand_target,
                move_speed: fx_clamp(self.move_speed, -UNIT, UNIT),
                target_height: fx_clamp(self.target_height, 0, UNIT),
                hold: self.hold,
                jump: self.jump,
            },
        )
    }
}

} // verus!
