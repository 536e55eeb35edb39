//! The player's body: a point mass with a collider, two arms, the
//! hold state, the ground state and the swing history, plus the
//! per-tick collision query and resolution against level surfaces.

use vstd::prelude::*;

use crate::angle::{Angle, QUARTER_TURN};
use crate::arm_skeleton::{arm_wf, ArmSkeleton};
use crate::collider::{
    bounded_vec2, col_props, collider_wf, resolution_displacement, spec_check_collision,
    spec_resolution_displacement, Collider, Collision, COLLIDER_LIMIT,
};
use crate::fixed::spec_abs;
use crate::point::PhysicsPoint;
use crate::running::{history_wf, BodyMovementHistory};
use crate::surface::{surface_wf, Surface};
use crate::trig::{spec_arg_raw, v_arg};
use crate::vector::{
    len2, spec_v_add, spec_v_clamp_box, spec_v_dot, spec_v_len, spec_v_neg, spec_v_scale,
    spec_v_sub, v_add, v_clamp_box, v_dot, v_len, v_neg, v_scale, v_sub, Vec2,
};

verus! {

/// Largest speed component the body can carry.
pub const VEL_LIMIT: i64 = 1_000_000_000_000;

/// Largest mass a body accepts.
pub const MASS_LIMIT: i64 = 1_000_000_000;

/// How far from straight up a collision normal may point and still
/// count as ground, in raw angle units.
pub const GROUND_ANGLE: i64 = 500;

/// A point mass with an attached collision shape.
#[derive(Clone, Copy, Debug, PartialEq, Eq, Structural)]
pub struct PhysicsBody {
    pub position: Vec2,
    pub velocity: Vec2,
    pub mass: i64,
    pub collider: Collider,
}

/// A well-formed body: position and velocity within the world bounds,
/// positive bounded mass, well-formed collider.
pub open spec fn pb_wf(b: PhysicsBody) -> bool {
    &&& bounded_vec2(b.position, COLLIDER_LIMIT as int)
    &&& bounded_vec2(b.velocity, VEL_LIMIT as int)
    &&& 1 <= b.mass <= MASS_LIMIT
    &&& collider_wf(b.collider)
}

impl PhysicsBody {
    /// A body at rest.
    pub fn new(position: Vec2, mass: i64, collider: Collider) -> (r: PhysicsBody)
        requires
            bounded_vec2(position, COLLIDER_LIMIT as int),
            1 <= mass <= MASS_LIMIT,
            collider_wf(collider),
        ensures
            r == (PhysicsBody { position, velocity: Vec2 { x: 0i64, y: 0i64 }, mass, collider }),
            pb_wf(r),
    {
        PhysicsBody { position, velocity: Vec2 { x: 0, y: 0 }, mass, collider }
    }

    /// One integration step: the position advances by velocity times
    /// the time step, clamped into the world bound.
    pub open spec fn spec_movement(self, delta_time: i64) -> PhysicsBody {
        PhysicsBody {
            position: spec_v_clamp_box(
                spec_v_add(self.position, spec_v_scale(self.velocity, delta_time as int)),
                COLLIDER_LIMIT as int,
            ),
            ..self
        }
    }

    /// One integration step.
    pub fn movement(&mut self, delta_time: i64)
        requires
            pb_wf(*old(self)),
            delta_time >= 0,
        ensures
            *final(self) == old(self).spec_movement(delta_time),
            pb_wf(*final(self)),
    {
        self.position = v_clamp_box(
            v_add(self.position, v_scale(self.velocity, delta_time)),
            COLLIDER_LIMIT,
        );
    }

    /// `self` composed onto a parent frame: positions and velocities
    /// accumulate; mass and collider stay the body's own.
    pub fn relative(&self, other: &PhysicsBody) -> (r: PhysicsBody)
        ensures
            r == (PhysicsBody {
                position: spec_v_add(self.position, other.position),
                velocity: spec_v_add(self.velocity, other.velocity),
                mass: self.mass,
                collider: self.collider,
            }),
    {
        PhysicsBody {
            position: v_add(self.position, other.position),
            velocity: v_add(self.velocity, other.velocity),
            mass: self.mass,
            collider: self.collider,
        }
    }

    /// The body's momentum: velocity scaled by mass.
    pub fn impulse(&self) -> (r: Vec2)
        requires
            pb_wf(*self),
        ensures
            r == spec_v_scale(self.velocity, self.mass as int),
            bounded_vec2(r, 0x4000_0000_0000_0000),
    {
        proof {
            crate::fixed::lemma_tdiv_mag((self.velocity.x as int) * (self.mass as int),
                crate::fixed::UNIT as int);
            crate::fixed::lemma_tdiv_mag((self.velocity.y as int) * (self.mass as int),
                crate::fixed::UNIT as int);
            assert(spec_abs((self.velocity.x as int) * (self.mass as int))
                <= 1_000_000_000_000_000_000_000 && spec_abs((self.velocity.y as int) * (self.mass
                as int)) <= 1_000_000_000_000_000_000_000) by (nonlinear_arith)
                requires
                    -1_000_000_000_000 <= self.velocity.x as int <= 1_000_000_000_000,
                    -1_000_000_000_000 <= self.velocity.y as int <= 1_000_000_000_000,
                    1 <= self.mass as int <= 1_000_000_000;
            let tx = crate::fixed::tdiv((self.velocity.x as int) * (self.mass as int),
                crate::fixed::UNIT as int);
            let ty = crate::fixed::tdiv((self.velocity.y as int) * (self.mass as int),
                crate::fixed::UNIT as int);
            assert(spec_abs(tx) <= 0x4000_0000_0000_0000 && spec_abs(ty) <= 0x4000_0000_0000_0000)
                by (nonlinear_arith)
                requires
                    spec_abs(tx) * (crate::fixed::UNIT as int) <= spec_abs((self.velocity.x
                        as int) * (self.mass as int)),
                    spec_abs(ty) * (crate::fixed::UNIT as int) <= spec_abs((self.velocity.y
                        as int) * (self.mass as int)),
                    spec_abs((self.velocity.x as int) * (self.mass as int))
                        <= 1_000_000_000_000_000_000_000,
                    spec_abs((self.velocity.y as int) * (self.mass as int))
                        <= 1_000_000_000_000_000_000_000,
                    0 <= spec_abs(tx),
                    0 <= spec_abs(ty),
                    crate::fixed::UNIT as int == 1000;
        }
        v_scale(self.velocity, self.mass)
    }

    /// The collision between this body's shape and another body's, in
    /// this body's frame.
    pub fn check_collision(&self, other: &PhysicsBody) -> (r: Option<Collision>)
        requires
            pb_wf(*self),
            pb_wf(*other),
        ensures
            r == spec_check_collision(self.collider, other.collider,
                spec_v_sub(other.position, self.position)),
            (r matches Option::Some(col) ==> col_props(col, self.collider, other.collider,
                spec_v_sub(other.position, self.position))),
    {
        self.collider.check_collision(&other.collider, v_sub(other.position, self.position))
    }
}

/// Whether a collision normal counts as ground: its angle deviates
/// from straight up by less than `max_angle` raw units.
pub open spec fn spec_ground_check(normal: Vec2, max_angle: i64) -> bool {
    spec_abs(
        (Angle { raw: spec_arg_raw(normal) as i64 }).spec_delta_to(Angle { raw: QUARTER_TURN }),
    ) < max_angle
}

/// Whether a collision normal counts as ground.
pub fn ground_check(normal: Vec2, max_angle: i64) -> (r: bool)
    ensures
        r == spec_ground_check(normal, max_angle),
{
    let a = v_arg(normal);
    let d = a.delta_to(Angle { raw: QUARTER_TURN });
    let mag = if d >= 0 {
        d
    } else {
        -d
    };
    mag < max_angle
}

/// The ground-threshold law: a collision normal pointing straight up
/// is classified as ground for every positive threshold, and a normal
/// pointing exactly sideways is never classified as ground for any
/// threshold up to a quarter turn.
pub proof fn lemma_ground_threshold(up: Vec2, side: Vec2, max_angle: i64)
    requires
        up.x == 0 && up.y > 0,
        side.y == 0 && side.x != 0,
        0 < max_angle <= QUARTER_TURN,
    ensures
        spec_ground_check(up, max_angle),
        !spec_ground_check(side, max_angle),
{
    crate::trig::lemma_arg_axes(up);
    crate::trig::lemma_arg_axes(side);
}

/// The player's body: the central mass, two arms, the hold and ground
/// state, and the swing history.
#[derive(Clone, Debug)]
pub struct Body {
    pub center: PhysicsBody,
    pub arm: ArmSkeleton,
    pub arm_back: ArmSkeleton,
    /// The world point the hand is anchored to, if any.
    pub holding_to: Option<Vec2>,
    /// The normal of the last floor-like collision, if any.
    pub ground_normal: Option<Vec2>,
    pub history: BodyMovementHistory,
}

/// A well-formed body.
pub open spec fn body_wf(b: Body) -> bool {
    &&& pb_wf(b.center)
    &&& arm_wf(b.arm)
    &&& arm_wf(b.arm_back)
    &&& history_wf(b.history)
    &&& (b.holding_to matches Option::Some(p) ==> bounded_vec2(p, COLLIDER_LIMIT as int))
    &&& (b.ground_normal matches Option::Some(n) ==> bounded_vec2(n, crate::fixed::UNIT as int))
}

/// The first surface endpoint within the hand's grab radius, walking
/// the surfaces in order and checking each start point before its end
/// point.
pub open spec fn spec_find_hold(surfaces: Seq<Surface>, hand: PhysicsPoint, i: int) -> Option<
    Vec2,
>
    decreases surfaces.len() - i,
{
    if i < 0 || i >= surfaces.len() {
        Option::None
    } else {
        let s = surfaces[i];
        if spec_v_len(spec_v_sub(s.p1, hand.position)) <= hand.radius {
            Option::Some(s.p1)
        } else if spec_v_len(spec_v_sub(s.p2, hand.position)) <= hand.radius {
            Option::Some(s.p2)
        } else {
            spec_find_hold(surfaces, hand, i + 1)
        }
    }
}

/// The best (deepest) collision of the body's shape against the
/// surfaces, among those the body is moving into: the index of the
/// surface and the collision, with later surfaces winning ties.
pub open spec fn spec_best_collision(
    center: PhysicsBody,
    surfaces: Seq<Surface>,
    i: int,
    best: Option<(int, Collision)>,
) -> Option<(int, Collision)>
    decreases surfaces.len() - i,
{
    if i < 0 || i >= surfaces.len() {
        best
    } else {
        let s = surfaces[i];
        let cand = spec_check_collision(
            center.collider,
            Collider::Surface { p1: s.p1, p2: s.p2 },
            spec_v_neg(center.position),
        );
        let best2 = match cand {
            Option::Some(col) => {
                if spec_v_dot(col.normal, center.velocity) < 0 {
                    match best {
                        Option::Some(old_b) => {
                            if col.penetration >= old_b.1.penetration {
                                Option::Some((i, col))
                            } else {
                                best
                            }
                        },
                        Option::None => Option::Some((i, col)),
                    }
                } else {
                    best
                }
            },
            Option::None => best,
        };
        spec_best_collision(center, surfaces, i + 1, best2)
    }
}

impl Body {
    /// A fresh body at a spawn position: a two-unit-tall box of mass
    /// twenty, with two identical arms whose bones span 0.7 and 0.8
    /// units (a maximum reach of 1.5 units), an empty history, no
    /// hold and no ground contact.
    pub fn new(position: Vec2) -> (r: Body)
        requires
            bounded_vec2(position, COLLIDER_LIMIT as int),
        ensures
            body_wf(r),
            r.center.position == position,
            r.center.velocity == (Vec2 { x: 0i64, y: 0i64 }),
            r.center.mass == 20_000,
            r.center.collider == (Collider::Aabb { half: Vec2 { x: 500i64, y: 1000i64 } }),
            r.arm.elbow.point.distance == 700,
            r.arm.hand.point.distance == 800,
            r.arm.elbow.velocity == 0 && r.arm.hand.velocity == 0,
            r.arm.hand.radius == 200,
            r.arm_back == r.arm,
            r.holding_to == Option::<Vec2>::None,
            r.ground_normal == Option::<Vec2>::None,
            r.history.time == 0,
            r.history.states@ == Seq::<crate::running::BodyMovementState>::empty(),
    {
        let center = PhysicsBody::new(position, 20_000, Collider::rectangle(1000, 2000));
        proof {
            crate::fixed::lemma_isqrt_exists(len2(Vec2 { x: 0i64, y: -700i64 }));
            crate::fixed::lemma_isqrt_unique(
                700,
                crate::fixed::isqrt_spec(len2(Vec2 { x: 0i64, y: -700i64 })),
                len2(Vec2 { x: 0i64, y: -700i64 }),
            );
            crate::fixed::lemma_isqrt_exists(len2(Vec2 { x: 0i64, y: -800i64 }));
            crate::fixed::lemma_isqrt_unique(
                800,
                crate::fixed::isqrt_spec(len2(Vec2 { x: 0i64, y: -800i64 })),
                len2(Vec2 { x: 0i64, y: -800i64 }),
            );
        }
        let shoulder = PhysicsPoint::new(Vec2 { x: 0, y: 500 }, 200, 500);
        let elbow = PhysicsPoint::new(Vec2 { x: 0, y: -700 }, 150, 700);
        let hand = PhysicsPoint::new(Vec2 { x: 0, y: -800 }, 200, 1000);
        let arm = ArmSkeleton::new(shoulder, elbow, hand);
        let arm_back = ArmSkeleton::new(shoulder, elbow, hand);
        Body {
            center,
            arm,
            arm_back,
            holding_to: Option::None,
            ground_normal: Option::None,
            history: BodyMovementHistory::new(),
        }
    }

    /// The body's center as a point mass (for composing the arm's
    /// world skeleton).
    pub fn center_point(&self) -> (r: PhysicsPoint)
        ensures
            r == (PhysicsPoint {
                position: self.center.position,
                radius: 0i64,
                velocity: self.center.velocity,
                mass: self.center.mass,
            }),
    {
        PhysicsPoint {
            position: self.center.position,
            radius: 0,
            velocity: self.center.velocity,
            mass: self.center.mass,
        }
    }

    /// Anchors the hand to the first surface endpoint within its grab
    /// radius, if any; otherwise the hold state is left as it was.
    pub fn try_holding(&mut self, surfaces: &Vec<Surface>)
        requires
            body_wf(*old(self)),
            forall|i: int| 0 <= i < surfaces@.len() ==> surface_wf(#[trigger] surfaces@[i]),
        ensures
            ({
                let hand = old(self).arm.spec_get_skeleton(
                    PhysicsPoint {
                        position: old(self).center.position,
                        radius: 0i64,
                        velocity: old(self).center.velocity,
                        mass: old(self).center.mass,
                    },
                ).2;
                match spec_find_hold(surfaces@, hand, 0) {
                    Option::Some(p) => final(self).holding_to == Option::Some(p),
                    Option::None => final(self).holding_to == old(self).holding_to,
                }
            }),
            final(self).center == old(self).center,
            final(self).arm == old(self).arm,
            final(self).arm_back == old(self).arm_back,
            final(self).ground_normal == old(self).ground_normal,
            final(self).history == old(self).history,
            body_wf(*final(self)),
    {
        let center = self.center_point();
        let (_, _, hand) = self.arm.get_skeleton(&center);
        let n = surfaces.len();
        let mut i: usize = 0;
        while i < n
            invariant
                0 <= i <= n,
                n == surfaces@.len(),
                forall|k: int| 0 <= k < surfaces@.len() ==> surface_wf(#[trigger] surfaces@[k]),
                spec_find_hold(surfaces@, hand, i as int) == spec_find_hold(surfaces@, hand, 0),
                body_wf(*self),
                *self == *old(self),
                hand == old(self).arm.spec_get_skeleton(
                    PhysicsPoint {
                        position: old(self).center.position,
                        radius: 0i64,
                        velocity: old(self).center.velocity,
                        mass: old(self).center.mass,
                    },
                ).2,
            decreases n - i,
        {
            let s = surfaces[i];
            if v_len(v_sub(s.p1, hand.position)) <= hand.radius {
                self.holding_to = Option::Some(s.p1);
                return ;
            }
            if v_len(v_sub(s.p2, hand.position)) <= hand.radius {
                self.holding_to = Option::Some(s.p2);
                return ;
            }
            i = i + 1;
        }
    }

    /// The resolution of one collision: the position is pushed out
    /// along the normal by the resolution displacement (clamped into
    /// the world bound), the velocity loses its component into the
    /// normal, and the normal becomes the ground normal when it points
    /// close enough to straight up.
    pub open spec fn spec_resolve(self, collision: Collision) -> Body {
        let d = spec_resolution_displacement(collision);
        let pos2 = spec_v_clamp_box(spec_v_add(self.center.position, d), COLLIDER_LIMIT as int);
        let vn = spec_v_dot(self.center.velocity, collision.normal);
        let vel2 = spec_v_clamp_box(
            spec_v_sub(self.center.velocity, spec_v_scale(collision.normal, vn)),
            VEL_LIMIT as int,
        );
        Body {
            center: PhysicsBody {
                position: pos2,
                velocity: vel2,
                mass: self.center.mass,
                collider: self.center.collider,
            },
            ground_normal: if spec_ground_check(collision.normal, GROUND_ANGLE) {
                Option::Some(collision.normal)
            } else {
                Option::None
            },
            ..self
        }
    }

    /// Resolves one collision against the body.
    pub fn resolve_collision(&mut self, collision: Collision)
        requires
            body_wf(*old(self)),
            0 < collision.penetration <= 20_000_000_000_000_000,
            bounded_vec2(collision.normal, crate::fixed::UNIT as int),
            len2(collision.normal) >= 250_000,
        ensures
            *final(self) == old(self).spec_resolve(collision),
            body_wf(*final(self)),
    {
        let d = resolution_displacement(collision);
        self.center.position = v_clamp_box(v_add(self.center.position, d), COLLIDER_LIMIT);
        let vn = v_dot(self.center.velocity, collision.normal);
        self.center.velocity = v_clamp_box(
            v_sub(self.center.velocity, v_scale(collision.normal, vn)),
            VEL_LIMIT,
        );
        if ground_check(collision.normal, GROUND_ANGLE) {
            self.ground_normal = Option::Some(collision.normal);
        } else {
            self.ground_normal = Option::None;
        }
    }

    /// The per-tick collision step: finds the deepest surface
    /// collision the body is moving into, resolves it, and reports the
    /// surface's index.  The ground state is reset first, so it
    /// reflects only this tick's contact.
    pub fn collide(&mut self, surfaces: &Vec<Surface>) -> (r: Option<usize>)
        requires
            body_wf(*old(self)),
            forall|i: int| 0 <= i < surfaces@.len() ==> surface_wf(#[trigger] surfaces@[i]),
        ensures
            body_wf(*final(self)),
            ({
                let reset = Body { ground_normal: Option::<Vec2>::None, ..*old(self) };
                match spec_best_collision(old(self).center, surfaces@, 0, Option::None) {
                    Option::None => *final(self) == reset && r == Option::<usize>::None,
                    Option::Some(b) => r == Option::Some(b.0 as usize) && *final(self)
                        == reset.spec_resolve(b.1),
                }
            }),
    {
        self.ground_normal = Option::None;
        let n = surfaces.len();
        let mut i: usize = 0;
        let mut best: Option<Collision> = Option::None;
        let mut best_idx: usize = 0;
        let ghost center0 = self.center;
        let ghost mut best_g: Option<(int, Collision)> = Option::None;
        while i < n
            invariant
                0 <= i <= n,
                n == surfaces@.len(),
                forall|k: int| 0 <= k < surfaces@.len() ==> surface_wf(#[trigger] surfaces@[k]),
                body_wf(*self),
                self.center == center0,
                *self == (Body { ground_normal: Option::<Vec2>::None, ..*old(self) }),
                spec_best_collision(center0, surfaces@, i as int, best_g) == spec_best_collision(
                    center0, surfaces@, 0, Option::None),
                (match best {
                    Option::Some(c) => best_g == Option::Some((best_idx as int, c)) && 0
                        <= best_idx < i && 0 < c.penetration <= 20_000_000_000_000_000
                        && bounded_vec2(c.normal, crate::fixed::UNIT as int) && len2(c.normal)
                        >= 250_000,
                    Option::None => best_g == Option::<(int, Collision)>::None,
                }),
            decreases n - i,
        {
            let s = surfaces[i];
            let cand = self.center.collider.check_collision(
                &(Collider::Surface { p1: s.p1, p2: s.p2 }),
                v_neg(self.center.position),
            );
            match cand {
                Option::Some(col) => {
                    if v_dot(col.normal, self.center.velocity) < 0 {
                        let replace = match best {
                            Option::Some(old_c) => col.penetration >= old_c.penetration,
                            Option::None => true,
                        };
                        if replace {
                            best = Option::Some(col);
                            best_idx = i;
                            proof {
                                best_g = Option::Some((i as int, col));
                            }
                        }
                    }
                },
                Option::None => {},
            }
            i = i + 1;
        }
        match best {
            Option::Some(col) => {
                self.resolve_collision(col);
                Option::Some(best_idx)
            },
            Option::None => Option::None,
        }
    }
}

} // verus!
