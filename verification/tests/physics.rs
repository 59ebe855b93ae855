//! Integration, friction decay, ground contact, obstacle reflection and
//! trajectory markers.

use minigolf_core::ball::{
    trajectory_marker_due, BallPhysicsController, BallState, EndReason, Hole, Obstacle,
};
use minigolf_core::vec3::Vec3Fx;

fn ball_at(x: i64, y: i64, z: i64) -> BallPhysicsController {
    BallPhysicsController::new(Vec3Fx::new(x, y, z))
}

const DT: i64 = 17;  // one 60 Hz tick in fixed-point seconds

#[test]
fn friction_stops_the_ball_within_bounded_ticks() {
    // Launch at 10 units/s on the ground: no gravity applies, friction
    // alone must bring the ball to rest within 500 ticks, flipping the
    // state back to aiming exactly once.
    let mut b = ball_at(0, 400, 0);
    b.adjust_aim(false, false, false, false, 1250);
    b.launch();
    assert_eq!(b.velocity(), Vec3Fx::new(10_000, 0, 0));
    let mut flips = 0;
    let mut was = b.state();
    let mut stopped_at = None;
    for tick in 1..=500 {
        b.integrate(DT);
        let now = b.state();
        if was == BallState::InFlight && now == BallState::Aiming {
            flips += 1;
            if stopped_at.is_none() {
                stopped_at = Some(tick);
            }
        }
        was = now;
    }
    assert_eq!(flips, 1, "the state must flip back to aiming exactly once");
    assert!(stopped_at.is_some());
    assert_eq!(b.velocity(), Vec3Fx::new(0, 0, 0));
    let v = b.velocity();
    assert!(v.x * v.x + v.y * v.y + v.z * v.z < 10_000);
}

#[test]
fn gravity_pulls_down_and_ground_clamps() {
    // Dropped from 5 units up, the ball must land exactly on the ground
    // with no vertical velocity and never sink below the ground plane.
    let mut b = ball_at(0, 5000, 0);
    b.launch();  // power 0: in flight at rest, gravity takes over
    for _ in 0..600 {
        b.integrate(DT);
        assert!(b.position().y >= 0, "the ball must never sink below zero");
    }
    assert_eq!(b.position().y, 400);
    assert_eq!(b.velocity().y, 0);
}

#[test]
fn first_gravity_tick_exact() {
    let mut b = ball_at(0, 5000, 0);
    b.launch();
    b.integrate(DT);
    // One tick: velocity.y = trunc(trunc(-9810 * 17 / 1000) * 96 / 100),
    // position.y = 5000 + trunc(-166 * 17 / 1000).
    assert_eq!(b.velocity().y, -159);
    assert_eq!(b.position().y, 4998);
}

#[test]
fn head_on_reflection_reverses_velocity() {
    // Ball inside an obstacle's contact range, moving straight at its
    // centre: the reflected velocity is the exact reversal.
    let mut b = ball_at(0, 400, 0);
    b.adjust_aim(false, false, false, false, 375);
    b.launch();
    assert_eq!(b.velocity(), Vec3Fx::new(3000, 0, 0));
    let obstacles = vec![Obstacle { position: Vec3Fx::new(1500, 400, 0), radius: 1300 }];
    b.resolve_obstacle_collisions(&obstacles);
    assert_eq!(b.velocity(), Vec3Fx::new(-3000, 0, 0));
}

#[test]
fn out_of_range_obstacle_leaves_velocity_alone() {
    let mut b = ball_at(0, 400, 0);
    b.adjust_aim(false, false, false, false, 375);
    b.launch();
    let obstacles = vec![Obstacle { position: Vec3Fx::new(9000, 400, 0), radius: 1300 }];
    b.resolve_obstacle_collisions(&obstacles);
    assert_eq!(b.velocity(), Vec3Fx::new(3000, 0, 0));
}

#[test]
fn overlapping_obstacles_reflect_sequentially() {
    // Two obstacles both in contact: the first reverses the velocity, the
    // second reverses it back, in iteration order.
    let mut b = ball_at(0, 400, 0);
    b.adjust_aim(false, false, false, false, 375);
    b.launch();
    let obstacles = vec![
        Obstacle { position: Vec3Fx::new(1500, 400, 0), radius: 1300 },
        Obstacle { position: Vec3Fx::new(-1500, 400, 0), radius: 1300 },
    ];
    b.resolve_obstacle_collisions(&obstacles);
    assert_eq!(b.velocity(), Vec3Fx::new(3000, 0, 0));
}

#[test]
fn empty_obstacle_list_is_a_no_op() {
    let mut b = ball_at(0, 400, 0);
    b.adjust_aim(false, false, false, false, 1000);
    b.launch();
    let v = b.velocity();
    b.resolve_obstacle_collisions(&vec![]);
    assert_eq!(b.velocity(), v);
}

#[test]
fn trajectory_marker_threshold() {
    let a = Vec3Fx::new(0, 400, 0);
    assert!(trajectory_marker_due(&Vec3Fx::new(501, 400, 0), &a));
    assert!(!trajectory_marker_due(&Vec3Fx::new(500, 400, 0), &a));
    assert!(!trajectory_marker_due(&a, &a));
}

#[test]
fn fixed_tick_runs_physics_collisions_then_win_check() {
    // Ball rolling toward the hole: after enough whole ticks the win fires.
    let mut b = ball_at(0, 400, 0);
    b.adjust_aim(false, false, false, false, 2000);
    b.launch();
    let hole = Hole { position: Vec3Fx::new(5000, 400, 0), capture_radius: 550 };
    let obstacles: Vec<Obstacle> = vec![];
    let mut won = false;
    for _ in 0..500 {
        if b.fixed_tick(DT, &obstacles, &hole) {
            won = true;
            break;
        }
    }
    assert!(won, "a 16 unit/s shot must reach a hole 5 units away");
    assert_eq!(b.session_end(), Some(EndReason::Won));
}
