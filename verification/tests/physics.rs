//! Collision detection, resolution and the arm's scenarios.

use swing_physics::angle::Angle;
use swing_physics::body::{ground_check, Body, GROUND_ANGLE};
use swing_physics::collider::{Collider, Projection};
use swing_physics::surface::Surface;
use swing_physics::vector::{v_add, v_len, Vec2};

#[test]
fn projection_intersections() {
    // overlapping from below: positive overlap
    assert_eq!(
        Projection::new(0, 10).get_intersection(Projection::new(5, 20)),
        Some(5)
    );
    // disjoint: none
    assert_eq!(
        Projection::new(0, 10).get_intersection(Projection::new(20, 30)),
        None
    );
    // overlapping from above: negative overlap
    assert_eq!(
        Projection::new(5, 20).get_intersection(Projection::new(0, 10)),
        Some(-5)
    );
    // touching exactly: no overlap
    assert_eq!(
        Projection::new(0, 10).get_intersection(Projection::new(10, 20)),
        None
    );
}

#[test]
fn box_contains_points() {
    let b = Collider::square(1000);
    assert!(b.contains(Vec2 { x: 100, y: 100 }, Vec2 { x: 0, y: 0 }));
    assert!(!b.contains(Vec2 { x: 800, y: 0 }, Vec2 { x: 0, y: 0 }));
    // the collider's own position shifts the test
    assert!(b.contains(Vec2 { x: 800, y: 0 }, Vec2 { x: 700, y: 0 }));
}

#[test]
fn boxes_collide_along_the_least_overlap() {
    let a = Collider::square(1000);
    let b = Collider::square(1000);
    let col = a.check_collision(&b, Vec2 { x: 500, y: 0 }).unwrap();
    // the second box sits half a unit to the right: the first is
    // pushed left by the half-unit overlap
    assert_eq!(col.normal, Vec2 { x: -1000, y: 0 });
    assert_eq!(col.penetration, 500_000);
    // far apart: no collision
    assert!(a.check_collision(&b, Vec2 { x: 5000, y: 0 }).is_none());
}

#[test]
fn ground_classification_thresholds() {
    // straight up is always ground
    assert!(ground_check(Vec2 { x: 0, y: 1000 }, GROUND_ANGLE));
    assert!(ground_check(Vec2 { x: 0, y: 1000 }, 1));
    // sideways and downward normals never are
    assert!(!ground_check(Vec2 { x: 1000, y: 0 }, GROUND_ANGLE));
    assert!(!ground_check(Vec2 { x: -1000, y: 0 }, GROUND_ANGLE));
    assert!(!ground_check(Vec2 { x: 0, y: -1000 }, GROUND_ANGLE));
}

#[test]
fn body_resolves_a_floor_collision_exactly() {
    // the body's box is one by two units; standing at y = 0.9 its feet
    // dip a tenth of a unit below the floor at y = 0
    let mut body = Body::new(Vec2 { x: 0, y: 900 });
    body.center.velocity = Vec2 { x: 0, y: -2000 };
    let floor = Surface { p1: Vec2 { x: -100_000, y: 0 }, p2: Vec2 { x: 100_000, y: 0 } };
    let hit = body.collide(&vec![floor]);
    assert_eq!(hit, Some(0));
    // pushed up exactly onto the floor, vertical speed zeroed, grounded
    assert_eq!(body.center.position, Vec2 { x: 0, y: 1000 });
    assert_eq!(body.center.velocity, Vec2 { x: 0, y: 0 });
    assert_eq!(body.ground_normal, Some(Vec2 { x: 0, y: 1000 }));
}

#[test]
fn resolved_collision_does_not_recollide() {
    let mut body = Body::new(Vec2 { x: 0, y: 900 });
    body.center.velocity = Vec2 { x: 0, y: -2000 };
    let floor = Surface { p1: Vec2 { x: -100_000, y: 0 }, p2: Vec2 { x: 100_000, y: 0 } };
    assert!(body.collide(&vec![floor]).is_some());
    // re-testing right after resolution finds no overlap left
    body.center.velocity = Vec2 { x: 0, y: -2000 };
    assert_eq!(body.collide(&vec![floor]), None);
}

#[test]
fn wall_collision_is_not_ground() {
    // a wall at x = 0.4, body moving right into it
    let mut body = Body::new(Vec2 { x: 0, y: 0 });
    body.center.velocity = Vec2 { x: 2000, y: 0 };
    let wall = Surface { p1: Vec2 { x: 400, y: -100_000 }, p2: Vec2 { x: 400, y: 100_000 } };
    let hit = body.collide(&vec![wall]);
    assert_eq!(hit, Some(0));
    assert_eq!(body.ground_normal, None);
    // horizontal speed into the wall is gone
    assert_eq!(body.center.velocity.x, 0);
}

#[test]
fn deepest_collision_wins() {
    let mut body = Body::new(Vec2 { x: 0, y: 900 });
    body.center.velocity = Vec2 { x: 0, y: -2000 };
    // the second floor is higher, so the body overlaps it deeper
    let low = Surface { p1: Vec2 { x: -100_000, y: 0 }, p2: Vec2 { x: 100_000, y: 0 } };
    let high = Surface { p1: Vec2 { x: -100_000, y: 300 }, p2: Vec2 { x: 100_000, y: 300 } };
    let hit = body.collide(&vec![low, high]);
    assert_eq!(hit, Some(1));
    assert_eq!(body.center.position, Vec2 { x: 0, y: 1300 });
}

#[test]
fn solved_angles_stay_within_reach() {
    let body = Body::new(Vec2 { x: 0, y: 0 });
    let arm = body.arm;
    // targets inside, at, and beyond the reach annulus
    let targets = [
        Vec2 { x: 900, y: 200 },
        Vec2 { x: 1500, y: 0 },
        Vec2 { x: 3000, y: 0 },
        Vec2 { x: 10, y: 10 },
        Vec2 { x: -2000, y: 1200 },
    ];
    let mut k = 0;
    while k < targets.len() {
        let (elbow_t, hand_t) = arm.solve_angles(targets[k]).unwrap();
        // reconstruct the hand from the returned angles
        let elbow_angle = Angle::new(elbow_t);
        let hand_angle = Angle::new(hand_t).plus(elbow_angle);
        let elbow_vec = swing_physics::arm_skeleton::PolarPoint {
            distance: 700,
            angle: elbow_angle,
        }
        .to_cartesian();
        let hand_vec = swing_physics::arm_skeleton::PolarPoint {
            distance: 800,
            angle: hand_angle,
        }
        .to_cartesian();
        let reach = v_len(v_add(elbow_vec, hand_vec));
        assert!(reach <= 700 + 800 + 1);
        k += 1;
    }
    // the zero target has no solution
    assert_eq!(arm.solve_angles(Vec2 { x: 0, y: 0 }), None);
}

#[test]
fn overstretched_hold_with_outward_momentum_releases() {
    let body = Body::new(Vec2 { x: 0, y: 0 });
    let mut arm = body.arm;
    // anchor beyond the 1.5-unit reach, body momentum flying away
    // harder than the hold budget can pay
    let (_, release) = arm.control(
        Vec2 { x: 100, y: 0 },
        Some(Vec2 { x: 2000, y: 0 }),
        Vec2 { x: -400_000_000, y: 0 },
        16,
    );
    assert!(release);
}

#[test]
fn hold_within_budget_does_not_release() {
    let body = Body::new(Vec2 { x: 0, y: 0 });
    let mut arm = body.arm;
    // same overstretched anchor, but gentle momentum
    let (_, release) = arm.control(
        Vec2 { x: 100, y: 0 },
        Some(Vec2 { x: 2000, y: 0 }),
        Vec2 { x: -100_000, y: 0 },
        16,
    );
    assert!(!release);
    // and an anchor within reach never pays the budget at all
    let mut arm2 = body.arm;
    let (_, release2) = arm2.control(
        Vec2 { x: 100, y: 0 },
        Some(Vec2 { x: 1000, y: 0 }),
        Vec2 { x: -400_000_000, y: 0 },
        16,
    );
    assert!(!release2);
}

#[test]
fn skeleton_composes_from_the_body() {
    let body = Body::new(Vec2 { x: 5000, y: 3000 });
    let center = body.center_point();
    let (shoulder, elbow, hand) = body.arm.get_skeleton(&center);
    // the shoulder sits half a unit above the body center
    assert_eq!(shoulder.position, Vec2 { x: 5000, y: 3500 });
    // the elbow bone points straight down from the shoulder
    assert_eq!(elbow.position, Vec2 { x: 5000, y: 2800 });
    // the hand's angle composes with the elbow's, so the default pose
    // folds the hand sideways from the elbow
    assert_eq!(hand.position, Vec2 { x: 4200, y: 2800 });
}

#[test]
fn surface_geometry() {
    let s = Surface { p1: Vec2 { x: 0, y: 0 }, p2: Vec2 { x: 3000, y: 4000 } };
    assert_eq!(s.length(), 5000);
    assert_eq!(s.direction(), Vec2 { x: 600, y: 800 });
    assert_eq!(s.normal(), Vec2 { x: -800, y: 600 });
    // the midpoint projects onto half the length
    assert_eq!(s.project(Vec2 { x: 1500, y: 2000 }), 2500);
    assert_eq!(s.project(Vec2 { x: 0, y: 0 }), 0);
}

#[test]
fn collider_projection_covers_the_shape() {
    let b = Collider::square(1000);
    let p = b.project(Vec2 { x: 1000, y: 0 }, Vec2 { x: 0, y: 0 });
    assert_eq!(p, Projection::new(-500_000, 500_000));
    // an offset shifts the whole interval
    let q = b.project(Vec2 { x: 1000, y: 0 }, Vec2 { x: 200, y: 0 });
    assert_eq!(q, Projection::new(-300_000, 700_000));
}
