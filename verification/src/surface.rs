//! Level geometry: static surfaces and the level that holds them.

use vstd::prelude::*;

use crate::collider::{bounded_vec2, collider_wf, Collider, COLLIDER_LIMIT};
use crate::vector::{
    normalize_or_zero, rotate_90, spec_normalize, spec_rot90, spec_v_len, spec_v_sub, v_len,
    v_sub, Vec2,
};

verus! {

/// An immutable static line segment the body can collide with or hold
/// onto.
#[derive(Clone, Copy, Debug, PartialEq, Eq, Structural)]
pub struct Surface {
    pub p1: Vec2,
    pub p2: Vec2,
}

/// A surface whose endpoints lie within the collision system's world
/// bound.
pub open spec fn surface_wf(s: Surface) -> bool {
    bounded_vec2(s.p1, COLLIDER_LIMIT as int) && bounded_vec2(s.p2, COLLIDER_LIMIT as int)
}

impl Surface {
    /// The surface as a collision shape.
    pub fn collider(&self) -> (r: Collider)
        requires
            surface_wf(*self),
        ensures
            r == (Collider::Surface { p1: self.p1, p2: self.p2 }),
            collider_wf(r),
    {
        Collider::Surface { p1: self.p1, p2: self.p2 }
    }

    /// The unit direction from the first endpoint to the second, or
    /// zero for a degenerate surface.
    pub fn direction(&self) -> (r: Vec2)
        ensures
            r == spec_normalize(spec_v_sub(self.p2, self.p1)),
            bounded_vec2(r, crate::fixed::UNIT as int),
    {
        normalize_or_zero(v_sub(self.p2, self.p1))
    }

    /// The surface's length.
    pub fn length(&self) -> (r: i64)
        ensures
            r as int == spec_v_len(spec_v_sub(self.p2, self.p1)),
    {
        v_len(v_sub(self.p2, self.p1))
    }

    /// The surface's unit normal: its direction turned a quarter turn
    /// counterclockwise.
    pub fn normal(&self) -> (r: Vec2)
        ensures
            r == spec_rot90(spec_normalize(spec_v_sub(self.p2, self.p1))),
    {
        rotate_90(self.direction())
    }

    /// Projects a world point onto the surface: zero at the first
    /// endpoint, positive toward the second.
    pub fn project(&self, point: Vec2) -> (r: i64)
        requires
            surface_wf(*self),
            bounded_vec2(point, COLLIDER_LIMIT as int),
        ensures
            r as int == crate::vector::spec_v_dot(
                spec_v_sub(point, self.p1),
                spec_normalize(spec_v_sub(self.p2, self.p1)),
            ),
    {
        crate::vector::v_dot(v_sub(point, self.p1), self.direction())
    }
}

/// A level: where the body spawns, and the surfaces it can touch.
#[derive(Clone, Debug)]
pub struct Level {
    pub spawn_point: Vec2,
    pub surfaces: Vec<Surface>,
}

/// A well-formed level: the spawn point and every surface lie within
/// the world bound.
pub open spec fn level_wf(l: Level) -> bool {
    &&& bounded_vec2(l.spawn_point, COLLIDER_LIMIT as int)
    &&& forall|i: int| 0 <= i < l.surfaces@.len() ==> surface_wf(#[trigger] l.surfaces@[i])
}

impl Level {
    /// An empty level spawning at the origin.
    pub fn new() -> (r: Level)
        ensures
            r.spawn_point == (Vec2 { x: 0i64, y: 0i64 }),
            r.surfaces@ == Seq::<Surface>::empty(),
            level_wf(r),
    {
        Level { spawn_point: Vec2 { x: 0, y: 0 }, surfaces: Vec::new() }
    }
}

impl Default for Level {
    /// The default level is the empty one.
    fn default() -> (r: Level)
        ensures
            r.spawn_point == (Vec2 { x: 0i64, y: 0i64 }),
            r.surfaces@ == Seq::<Surface>::empty(),
            level_wf(r),
    {
        Level::new()
    }
}

} // verus!
