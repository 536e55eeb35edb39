//! The speed model, control verification and whole-tick behavior.

use swing_physics::body::Body;
use swing_physics::control::BodyControl;
use swing_physics::logic::Model;
use swing_physics::running::{
    BodyMovementHistory, BodyMovementInfo, BodyMovementState, MAX_RUNNING_SPEED, WALKING_SPEED,
};
use swing_physics::surface::{Level, Surface};
use swing_physics::vector::Vec2;

fn swing_history(amplitudes: &[i64]) -> BodyMovementHistory {
    let mut h = BodyMovementHistory::new();
    let mut i = 0;
    while i < amplitudes.len() {
        let state = BodyMovementState {
            time: 0,
            hand: Vec2 { x: amplitudes[i], y: 0 },
        };
        h.update(state, 400);
        i += 1;
    }
    h
}

#[test]
fn four_full_swings_earn_the_running_speed() {
    // four alternating swings of amplitude 0.5 across the two-second
    // window, at the reference rhythm
    let h = swing_history(&[500, -500, 500, -500, 500]);
    let info = h.analyze();
    assert_eq!(info.swings, 4);
    assert_eq!(info.total_amplitude, 2000);
    assert_eq!(info.duration, 1600);
    let stats = info.calc_stats();
    assert_eq!(stats.move_speed, MAX_RUNNING_SPEED);
}

#[test]
fn a_still_hand_earns_the_walking_speed() {
    let h = swing_history(&[300, 300, 300, 300, 300]);
    let info = h.analyze();
    assert_eq!(info.swings, 0);
    let stats = info.calc_stats();
    assert_eq!(stats.move_speed, WALKING_SPEED);
}

#[test]
fn larger_amplitude_never_slows_the_runner() {
    let small = BodyMovementInfo { swings: 4, total_amplitude: 1200, duration: 1600 };
    let large = BodyMovementInfo { swings: 4, total_amplitude: 2000, duration: 1600 };
    let slow = small.calc_stats().move_speed;
    let fast = large.calc_stats().move_speed;
    assert_eq!(slow, 4400);
    assert_eq!(fast, 6000);
    assert!(slow <= fast);
}

#[test]
fn speed_stays_between_walking_and_running() {
    let odd_inputs = [
        BodyMovementInfo { swings: 7, total_amplitude: 999_999, duration: 3 },
        BodyMovementInfo { swings: 0, total_amplitude: 0, duration: 0 },
        BodyMovementInfo { swings: 1, total_amplitude: 1, duration: 2000 },
        BodyMovementInfo { swings: 1_000_000, total_amplitude: i64::MAX, duration: 1 },
    ];
    let mut i = 0;
    while i < odd_inputs.len() {
        let speed = odd_inputs[i].calc_stats().move_speed;
        assert!(WALKING_SPEED <= speed && speed <= MAX_RUNNING_SPEED);
        i += 1;
    }
}

#[test]
fn history_evicts_samples_older_than_the_window() {
    let mut h = BodyMovementHistory::new();
    let mut i = 0;
    while i < 5 {
        h.update(BodyMovementState { time: 0, hand: Vec2 { x: 100, y: 0 } }, 600);
        i += 1;
    }
    // at time 3.0 the sample from time 0.6 has left the 2-second window
    assert_eq!(h.time, 3000);
    assert_eq!(h.states.len(), 4);
}

#[test]
fn overlong_hand_target_clamps_to_the_reach_tolerance() {
    // the arm reaches 1.5 units; the clamp allows ten percent more
    let body = Body::new(Vec2 { x: 0, y: 0 });
    let raw = BodyControl {
        hand_target: Vec2 { x: 3000, y: 0 },
        move_speed: 5000,
        target_height: -100,
        hold: false,
        jump: false,
    };
    let clamped = BodyControl::from(raw.verify(&body));
    assert_eq!(clamped.hand_target, Vec2 { x: 1650, y: 0 });
    assert_eq!(clamped.move_speed, 1000);
    assert_eq!(clamped.target_height, 0);
    assert_eq!(clamped.hold, false);
    assert_eq!(clamped.jump, false);
}

#[test]
fn verifying_twice_equals_verifying_once() {
    let body = Body::new(Vec2 { x: 0, y: 0 });
    let raws = [
        BodyControl {
            hand_target: Vec2 { x: 3000, y: 0 },
            move_speed: 5000,
            target_height: -100,
            hold: true,
            jump: false,
        },
        BodyControl {
            hand_target: Vec2 { x: 4000, y: 4000 },
            move_speed: -9000,
            target_height: 9000,
            hold: false,
            jump: true,
        },
        BodyControl {
            hand_target: Vec2 { x: 100, y: -200 },
            move_speed: 500,
            target_height: 500,
            hold: false,
            jump: false,
        },
    ];
    let mut i = 0;
    while i < raws.len() {
        let once = BodyControl::from(raws[i].verify(&body));
        let twice = BodyControl::from(once.verify(&body));
        assert_eq!(once, twice);
        i += 1;
    }
}

#[test]
fn in_range_control_passes_unchanged() {
    let body = Body::new(Vec2 { x: 0, y: 0 });
    let raw = BodyControl {
        hand_target: Vec2 { x: 300, y: 400 },
        move_speed: -700,
        target_height: 200,
        hold: true,
        jump: true,
    };
    assert_eq!(BodyControl::from(raw.verify(&body)), raw);
}

fn floor_level() -> Level {
    Level {
        spawn_point: Vec2 { x: 0, y: 900 },
        surfaces: vec![Surface {
            p1: Vec2 { x: -100_000, y: 0 },
            p2: Vec2 { x: 100_000, y: 0 },
        }],
    }
}

#[test]
fn a_dropped_body_settles_onto_the_floor() {
    let mut model = Model::new(floor_level());
    let mut control = BodyControl::default();
    let mut i = 0;
    while i < 5 {
        model.update(&mut control, 16);
        i += 1;
    }
    // feet exactly on the floor, no vertical speed, grounded
    assert_eq!(model.player.center.position.y, 1000);
    assert_eq!(model.player.center.velocity.y, 0);
    assert_eq!(model.player.ground_normal, Some(Vec2 { x: 0, y: 1000 }));
    assert_eq!(model.surface_collision, Some(0));
}

#[test]
fn jumping_leaves_the_ground() {
    let mut model = Model::new(floor_level());
    let mut control = BodyControl::default();
    let mut i = 0;
    while i < 3 {
        model.update(&mut control, 16);
        i += 1;
    }
    let mut jump = BodyControl { jump: true, ..BodyControl::default() };
    model.update(&mut jump, 16);
    assert!(model.player.center.position.y > 1000);
    assert!(model.player.center.velocity.y > 0);
    assert_eq!(model.player.ground_normal, None);
    assert_eq!(model.surface_collision, None);
}

#[test]
fn moving_control_walks_the_body() {
    let mut model = Model::new(floor_level());
    let mut control = BodyControl::default();
    let mut i = 0;
    while i < 3 {
        model.update(&mut control, 16);
        i += 1;
    }
    let mut walk = BodyControl { move_speed: 1000, ..BodyControl::default() };
    let mut j = 0;
    while j < 10 {
        model.update(&mut walk, 16);
        j += 1;
    }
    assert!(model.player.center.velocity.x > 0);
    assert!(model.player.center.position.x > 0);
    // the raw control is written back clamped (here it was already
    // in range, so unchanged)
    assert_eq!(walk.move_speed, 1000);
}

#[test]
fn empty_level_defaults() {
    let level = Level::default();
    assert_eq!(level.spawn_point, Vec2 { x: 0, y: 0 });
    assert_eq!(level.surfaces.len(), 0);
    let model = Model::new(level);
    assert_eq!(model.player.center.position, Vec2 { x: 0, y: 0 });
    assert_eq!(model.player.holding_to, None);
    assert_eq!(model.surface_collision, None);
}

#[test]
fn holding_control_grabs_a_nearby_endpoint() {
    // place a surface endpoint within the hand's grab radius: the
    // default pose puts the hand 0.8 units left of the elbow at
    // (x - 0.8, y - 0.2) relative to the body center
    let mut body = Body::new(Vec2 { x: 0, y: 0 });
    let center = body.center_point();
    let (_, _, hand) = body.arm.get_skeleton(&center);
    let anchor = Vec2 { x: hand.position.x + 100, y: hand.position.y };
    let surfaces = vec![Surface { p1: anchor, p2: Vec2 { x: 50_000, y: 50_000 } }];
    body.try_holding(&surfaces);
    assert_eq!(body.holding_to, Some(anchor));
}

#[test]
fn a_tick_clears_an_overloaded_hold() {
    // the body clings to a far anchor while flying away hard: the
    // hold budget is overdrawn, the grip fails, and the tick clears
    // the anchor
    let mut model = Model::new(Level::default());
    model.player.holding_to = Some(Vec2 { x: 50_000, y: 0 });
    model.player.center.velocity = Vec2 { x: -1_000_000, y: 0 };
    let mut control = BodyControl { hold: true, ..BodyControl::default() };
    model.update(&mut control, 16);
    assert_eq!(model.player.holding_to, None);
}

#[test]
fn a_gentle_hold_survives_the_tick() {
    let mut model = Model::new(Level::default());
    model.player.holding_to = Some(Vec2 { x: 1_000, y: 0 });
    let mut control = BodyControl { hold: true, ..BodyControl::default() };
    model.update(&mut control, 16);
    assert_eq!(model.player.holding_to, Some(Vec2 { x: 1_000, y: 0 }));
}
