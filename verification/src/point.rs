//! Point masses.
//!
//! A [`PhysicsPoint`] is the joint primitive of the arm skeleton: a
//! position with a radius (for grab tests), a velocity and a mass.

use vstd::prelude::*;

use crate::vector::{spec_v_add, v_add, Vec2};

verus! {

/// A point mass with a radius, used for the arm's joints.
#[derive(Clone, Copy, Debug, PartialEq, Eq, Structural)]
pub struct PhysicsPoint {
    pub position: Vec2,
    pub radius: i64,
    pub velocity: Vec2,
    pub mass: i64,
}

/// A point mass is well-formed when its radius is nonnegative and its
/// mass positive.
pub open spec fn point_wf(p: PhysicsPoint) -> bool {
    p.radius >= 0 && p.mass >= 1
}

impl PhysicsPoint {
    /// A point mass at rest.
    pub fn new(position: Vec2, radius: i64, mass: i64) -> (r: PhysicsPoint)
        requires
            radius >= 0,
            mass >= 1,
        ensures
            r == (PhysicsPoint { position, radius, velocity: Vec2 { x: 0i64, y: 0i64 }, mass }),
            point_wf(r),
    {
        PhysicsPoint { position, radius, velocity: Vec2 { x: 0, y: 0 }, mass }
    }

    /// `self` composed onto a parent frame: positions and velocities
    /// accumulate, radius and mass stay the point's own.
    pub open spec fn spec_relative(self, other: PhysicsPoint) -> PhysicsPoint {
        PhysicsPoint {
            position: spec_v_add(self.position, other.position),
            velocity: spec_v_add(self.velocity, other.velocity),
            radius: self.radius,
            mass: self.mass,
        }
    }

    /// `self` composed onto a parent frame.
    pub fn relative(&self, other: &PhysicsPoint) -> (r: PhysicsPoint)
        ensures
            r == self.spec_relative(*other),
    {
        PhysicsPoint {
            position: v_add(self.position, other.position),
            velocity: v_add(self.velocity, other.velocity),
            radius: self.radius,
            mass: self.mass,
        }
    }
}

} // verus!
