//! Aiming, launch, win detection and the terminal session lock.

use minigolf_core::ball::{BallPhysicsController, BallState, EndReason, Hole};
use minigolf_core::num::{END_DELAY_TICKS, MAX_POWER, SCALE};
use minigolf_core::vec3::Vec3Fx;

fn ball_at(x: i64, y: i64, z: i64) -> BallPhysicsController {
    BallPhysicsController::new(Vec3Fx::new(x, y, z))
}

#[test]
fn fresh_session_state() {
    let b = ball_at(-12000, 400, 0);
    assert_eq!(b.position(), Vec3Fx::new(-12000, 400, 0));
    assert_eq!(b.velocity(), Vec3Fx::new(0, 0, 0));
    assert_eq!(b.aim_direction(), Vec3Fx::new(SCALE, 0, 0));
    assert_eq!(b.power(), 0);
    assert_eq!(b.state(), BallState::Aiming);
    assert_eq!(b.stroke_count(), 0);
    assert_eq!(b.session_end(), None);
}

#[test]
fn power_accumulates_and_clamps() {
    let mut b = ball_at(0, 400, 0);
    b.adjust_aim(false, false, false, false, 100);
    assert_eq!(b.power(), 100);
    for _ in 0..200 {
        b.adjust_aim(false, false, false, false, 100);
    }
    assert_eq!(b.power(), MAX_POWER);
    for _ in 0..300 {
        b.adjust_aim(false, false, false, false, -100);
    }
    assert_eq!(b.power(), 0);
    b.adjust_aim(false, false, false, false, i64::MAX);
    assert_eq!(b.power(), MAX_POWER);
    b.adjust_aim(false, false, false, false, i64::MIN);
    assert_eq!(b.power(), 0);
}

#[test]
fn one_left_rotation_exact() {
    let mut b = ball_at(0, 400, 0);
    b.adjust_aim(true, false, false, false, 0);
    assert_eq!(b.aim_direction(), Vec3Fx::new(1000, 0, -30));
}

#[test]
fn aim_norm_stays_near_unit() {
    let mut b = ball_at(0, 400, 0);
    for i in 0..400 {
        let left = i % 3 != 0;
        let tilt = i % 5 == 0;
        b.adjust_aim(left, !left, tilt, false, 0);
        let a = b.aim_direction();
        let n2 = a.x * a.x + a.y * a.y + a.z * a.z;
        assert!((980_100..=1_020_100).contains(&n2), "norm2 {} out of window", n2);
    }
}

#[test]
fn launch_determinism_along_axis() {
    let mut b = ball_at(0, 400, 0);
    // power 5.0, aim (1, 0, 0): launch at (5 * LAUNCH_SCALE, 0, 0) units/s.
    for _ in 0..50 {
        b.adjust_aim(false, false, false, false, 100);
    }
    assert_eq!(b.power(), 5000);
    let launched = b.launch();
    assert!(launched);
    assert_eq!(b.velocity(), Vec3Fx::new(40_000, 0, 0));
    assert_eq!(b.stroke_count(), 1);
    assert_eq!(b.power(), 0);
    assert_eq!(b.state(), BallState::InFlight);
}

#[test]
fn launch_ignored_while_in_flight() {
    let mut b = ball_at(0, 400, 0);
    b.adjust_aim(false, false, false, false, 1000);
    assert!(b.launch());
    let v = b.velocity();
    assert!(!b.launch());
    assert_eq!(b.velocity(), v);
    assert_eq!(b.stroke_count(), 1);
}

#[test]
fn aim_input_ignored_in_flight() {
    let mut b = ball_at(0, 400, 0);
    b.adjust_aim(false, false, false, false, 2000);
    b.launch();
    let pos = b.position();
    let vel = b.velocity();
    let aim = b.aim_direction();
    let strokes = b.stroke_count();
    b.adjust_aim(true, false, true, false, 4000);
    assert_eq!(b.position(), pos);
    assert_eq!(b.velocity(), vel);
    assert_eq!(b.aim_direction(), aim);
    assert_eq!(b.stroke_count(), strokes);
    assert_eq!(b.power(), 0);
}

#[test]
fn win_within_capture_radius() {
    let hole = Hole { position: Vec3Fx::new(500, 400, 0), capture_radius: 550 };
    let mut b = ball_at(0, 400, 0);
    assert!(b.check_win(&hole));
    assert_eq!(b.session_end(), Some(EndReason::Won));
}

#[test]
fn no_win_outside_capture_radius() {
    let hole = Hole { position: Vec3Fx::new(600, 400, 0), capture_radius: 550 };
    let mut b = ball_at(0, 400, 0);
    assert!(!b.check_win(&hole));
    assert_eq!(b.session_end(), None);
    // Exactly on the radius does not count as a win.
    let edge = Hole { position: Vec3Fx::new(550, 400, 0), capture_radius: 550 };
    assert!(!b.check_win(&edge));
    assert_eq!(b.session_end(), None);
}

#[test]
fn terminal_lock_after_win() {
    let hole = Hole { position: Vec3Fx::new(100, 400, 0), capture_radius: 550 };
    let mut b = ball_at(0, 400, 0);
    assert!(b.check_win(&hole));
    let pos = b.position();
    let vel = b.velocity();
    let strokes = b.stroke_count();
    b.integrate(17);
    b.adjust_aim(true, false, false, false, 500);
    assert!(!b.launch());
    assert_eq!(b.position(), pos);
    assert_eq!(b.velocity(), vel);
    assert_eq!(b.stroke_count(), strokes);
    assert_eq!(b.power(), 0);
    assert_eq!(b.session_end(), Some(EndReason::Won));
}

#[test]
fn deferred_end_pause_counts_down() {
    let hole = Hole { position: Vec3Fx::new(0, 400, 0), capture_radius: 550 };
    let mut b = ball_at(0, 400, 0);
    assert!(b.check_win(&hole));
    for _ in 0..END_DELAY_TICKS - 1 {
        assert!(!b.tick_end_delay());
    }
    assert!(b.tick_end_delay());
}

#[test]
fn quit_ends_session_at_once() {
    let mut b = ball_at(0, 400, 0);
    b.quit();
    assert_eq!(b.session_end(), Some(EndReason::Quit));
    assert!(b.tick_end_delay());
    // Quit does not overwrite a win already signalled.
    let hole = Hole { position: Vec3Fx::new(0, 400, 0), capture_radius: 550 };
    let mut w = ball_at(0, 400, 0);
    assert!(w.check_win(&hole));
    w.quit();
    assert_eq!(w.session_end(), Some(EndReason::Won));
}

#[test]
fn preview_endpoint_is_position_plus_aim_times_power() {
    let mut b = ball_at(0, 400, 0);
    for _ in 0..50 {
        b.adjust_aim(false, false, false, false, 100);
    }
    assert_eq!(b.aim_preview_end(), Vec3Fx::new(5000, 400, 0));
}
