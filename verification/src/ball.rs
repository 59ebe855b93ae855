//! The ball's aim/flight state machine: aim adjustment, launch, per-tick
//! Euler integration with gravity, ground contact and friction, obstacle
//! reflection, win detection and the terminal session lock.

use vstd::prelude::*;

use crate::num::{
    clamped, lemma_mag_sq, lemma_mul_bound, lemma_tdiv_exact, lemma_tdiv_mag, mag, sat, sat64,
    tdiv, tdiv64, AIM_NORM2_HI, AIM_NORM2_LO, BALL_RADIUS, COORD_CAP, DT_CAP, END_DELAY_TICKS,
    FRICTION_DEN, FRICTION_NUM, GRAVITY, GROUND_Y, LAUNCH_SCALE, MAX_POWER, ROT_SIN, SCALE,
    STOP_EPSILON, TRAJ_STEP,
};
use crate::vec3::{
    dist2, dist2_fx, dot, in_cap, lemma_comp_bound, lemma_normalized_norm, lemma_reflect_head_on,
    lemma_rot_x_norm, lemma_rot_y_norm, lemma_sq_bound, norm2, norm2_fx, normalize_fx, normalized,
    reflect, reflect_fx, rot_x, rot_x_fx, rot_y, rot_y_fx, vsub, Vec3Fx,
};

verus! {

/// The two modes of the ball: aim edits are accepted only while `Aiming`;
/// only physics integration applies while `InFlight`.
#[derive(Clone, Copy, Debug, PartialEq, Eq, Structural)]
pub enum BallState {
    Aiming,
    InFlight,
}

/// Why the session ended.
#[derive(Clone, Copy, Debug, PartialEq, Eq, Structural)]
pub enum EndReason {
    Won,
    Quit,
}

/// The target: a win fires when the ball's centre comes within
/// `capture_radius` of `position`.
#[derive(Clone, Copy, Debug, PartialEq, Eq, Structural)]
pub struct Hole {
    pub position: Vec3Fx,
    pub capture_radius: i64,
}

impl Hole {
    /// The hole sits in the playfield with a representable radius.
    pub open spec fn wf(self) -> bool {
        &&& in_cap(self.position@)
        &&& 0 <= self.capture_radius <= COORD_CAP
    }
}

/// A static cylindrical reflector in the horizontal plane.
#[derive(Clone, Copy, Debug, PartialEq, Eq, Structural)]
pub struct Obstacle {
    pub position: Vec3Fx,
    pub radius: i64,
}

impl Obstacle {
    /// The obstacle sits in the playfield with a representable radius.
    pub open spec fn wf(self) -> bool {
        &&& in_cap(self.position@)
        &&& 0 <= self.radius <= COORD_CAP
    }
}

/// Velocity after gravity, applied only while the ball is above the ground.
pub open spec fn grav_vel(p: (int, int, int), v: (int, int, int), dt: int) -> (int, int, int) {
    if p.1 > GROUND_Y as int {
        (v.0, sat(v.1 + tdiv((GRAVITY as int) * dt, SCALE as int)), v.2)
    } else {
        v
    }
}

/// Position after ground contact: a ball below the ground is put back on it.
pub open spec fn clamp_pos(p: (int, int, int)) -> (int, int, int) {
    if p.1 < GROUND_Y as int {
        (p.0, GROUND_Y as int, p.2)
    } else {
        p
    }
}

/// Velocity after ground contact: vertical motion stops on the ground.
pub open spec fn clamp_vel(p: (int, int, int), v: (int, int, int)) -> (int, int, int) {
    if p.1 < GROUND_Y as int {
        (v.0, 0, v.2)
    } else {
        v
    }
}

/// Position advanced by one tick of velocity, saturated to the playfield.
pub open spec fn step_pos(p: (int, int, int), v: (int, int, int), dt: int) -> (int, int, int) {
    (
        sat(p.0 + tdiv(v.0 * dt, SCALE as int)),
        sat(p.1 + tdiv(v.1 * dt, SCALE as int)),
        sat(p.2 + tdiv(v.2 * dt, SCALE as int)),
    )
}

/// Velocity after one tick of friction.
pub open spec fn fric_vel(v: (int, int, int)) -> (int, int, int) {
    (
        tdiv(v.0 * (FRICTION_NUM as int), FRICTION_DEN as int),
        tdiv(v.1 * (FRICTION_NUM as int), FRICTION_DEN as int),
        tdiv(v.2 * (FRICTION_NUM as int), FRICTION_DEN as int),
    )
}

/// The ball counts as at rest below this squared speed.
pub open spec fn is_stopped(v: (int, int, int)) -> bool {
    norm2(v) < (STOP_EPSILON as int) * (STOP_EPSILON as int)
}

/// New position after one tick: gravity, ground contact, then the move.
pub open spec fn integrate_pos(p: (int, int, int), v: (int, int, int), dt: int) -> (
    int,
    int,
    int,
) {
    step_pos(clamp_pos(p), clamp_vel(p, grav_vel(p, v, dt)), dt)
}

/// New velocity after one tick, before the stop test: gravity, ground
/// contact, then friction.
pub open spec fn integrate_vel(p: (int, int, int), v: (int, int, int), dt: int) -> (
    int,
    int,
    int,
) {
    fric_vel(clamp_vel(p, grav_vel(p, v, dt)))
}

/// Launch velocity: the unit aim direction scaled by the accumulated power
/// and the launch multiplier.
pub open spec fn launch_vel(a: (int, int, int), pw: int) -> (int, int, int) {
    (
        tdiv((LAUNCH_SCALE as int) * pw * a.0, SCALE as int),
        tdiv((LAUNCH_SCALE as int) * pw * a.1, SCALE as int),
        tdiv((LAUNCH_SCALE as int) * pw * a.2, SCALE as int),
    )
}

/// Aim direction after one adjustment: the pressed rotations in a fixed
/// order (left, right, tilt up, tilt down), renormalized if any fired.
pub open spec fn adjusted_aim(a: (int, int, int), rl: bool, rr: bool, tu: bool, td: bool) -> (
    int,
    int,
    int,
) {
    let a1 = if rl {
        rot_y(a, ROT_SIN as int)
    } else {
        a
    };
    let a2 = if rr {
        rot_y(a1, -(ROT_SIN as int))
    } else {
        a1
    };
    let a3 = if tu {
        rot_x(a2, ROT_SIN as int)
    } else {
        a2
    };
    let a4 = if td {
        rot_x(a3, -(ROT_SIN as int))
    } else {
        a3
    };
    if rl || rr || tu || td {
        normalized(a4)
    } else {
        a
    }
}

/// One obstacle's effect on the velocity: within contact range (and not
/// exactly at the obstacle's centre) the velocity reflects off the normal
/// from the obstacle to the ball; otherwise it passes unchanged.
pub open spec fn collide_one(p: (int, int, int), v: (int, int, int), o: Obstacle) -> (
    int,
    int,
    int,
) {
    let d = vsub(p, o.position@);
    let thr = (o.radius + BALL_RADIUS) as int;
    if 0 < norm2(d) && norm2(d) < thr * thr {
        reflect(v, d)
    } else {
        v
    }
}

/// The obstacles' effects applied sequentially in iteration order.
pub open spec fn collide_seq(p: (int, int, int), v: (int, int, int), obs: Seq<Obstacle>) -> (
    int,
    int,
    int,
)
    decreases obs.len(),
{
    if obs.len() == 0 {
        v
    } else {
        collide_one(p, collide_seq(p, v, obs.drop_last()), obs.last())
    }
}

/// Preview trajectory endpoint while aiming: `position + aim * power`.
pub open spec fn preview_end(p: (int, int, int), a: (int, int, int), pw: int) -> (int, int, int) {
    (
        sat(p.0 + tdiv(a.0 * pw, SCALE as int)),
        sat(p.1 + tdiv(a.1 * pw, SCALE as int)),
        sat(p.2 + tdiv(a.2 * pw, SCALE as int)),
    )
}

/// The ball's kinematic and aiming state, advanced once per fixed tick.
pub struct BallPhysicsController {
    position: Vec3Fx,
    velocity: Vec3Fx,
    aim_direction: Vec3Fx,
    power: i64,
    state: BallState,
    stroke_count: u32,
    ended: Option<EndReason>,
    end_delay: u32,
}

impl BallPhysicsController {
    /// World-space location of the ball's centre.
    pub closed spec fn pos(self) -> (int, int, int) {
        self.position@
    }

    /// World-space linear velocity; zero at rest.
    pub closed spec fn vel(self) -> (int, int, int) {
        self.velocity@
    }

    /// Direction of the intended shot, unit length up to one percent.
    pub closed spec fn aim(self) -> (int, int, int) {
        self.aim_direction@
    }

    /// Accumulated shot strength, always in `[0, MAX_POWER]`.
    pub closed spec fn pow(self) -> int {
        self.power as int
    }

    /// Whether the ball is aiming or in flight.
    pub closed spec fn mode(self) -> BallState {
        self.state
    }

    /// Strokes played so far.
    pub closed spec fn strokes(self) -> int {
        self.stroke_count as int
    }

    /// The terminal outcome, once the session has ended.
    pub closed spec fn done(self) -> Option<EndReason> {
        self.ended
    }

    /// Ticks left of the deferred end-of-session pause.
    pub closed spec fn delay_left(self) -> int {
        self.end_delay as int
    }

    /// The controller's invariant: coordinates and velocity stay in the
    /// playfield, the power stays in `[0, MAX_POWER]`, and the aim direction
    /// stays unit length up to one percent.
    pub open spec fn wf(self) -> bool {
        &&& in_cap(self.pos())
        &&& in_cap(self.vel())
        &&& 0 <= self.pow() <= MAX_POWER as int
        &&& AIM_NORM2_LO as int <= norm2(self.aim()) <= AIM_NORM2_HI as int
    }

    /// The fields that only the physics may move: everything except the
    /// session outcome and its deferred delay.
    pub open spec fn same_core(self, other: Self) -> bool {
        &&& self.pos() == other.pos()
        &&& self.vel() == other.vel()
        &&& self.aim() == other.aim()
        &&& self.pow() == other.pow()
        &&& self.mode() == other.mode()
        &&& self.strokes() == other.strokes()
    }

    /// A fresh session: ball at `start`, at rest, aiming along the x axis
    /// with no accumulated power, no strokes and no outcome.
    pub fn new(start: Vec3Fx) -> (b: BallPhysicsController)
        requires
            in_cap(start@),
        ensures
            b.wf(),
            b.pos() == start@,
            b.vel() == (0int, 0int, 0int),
            b.aim() == (SCALE as int, 0int, 0int),
            b.pow() == 0,
            b.mode() == BallState::Aiming,
            b.strokes() == 0,
            b.done() is None,
            b.delay_left() == 0,
    {
        proof {
            assert(norm2((SCALE as int, 0int, 0int)) == 1_000_000) by (nonlinear_arith);
        }
        BallPhysicsController {
            position: start,
            velocity: Vec3Fx::zero(),
            aim_direction: Vec3Fx::new(SCALE, 0, 0),
            power: 0,
            state: BallState::Aiming,
            stroke_count: 0,
            ended: None,
            end_delay: 0,
        }
    }

    /// Read-only snapshot of the position.
    pub fn position(&self) -> (r: Vec3Fx)
        ensures
            r@ == self.pos(),
    {
        self.position
    }

    /// Read-only snapshot of the velocity.
    pub fn velocity(&self) -> (r: Vec3Fx)
        ensures
            r@ == self.vel(),
    {
        self.velocity
    }

    /// Read-only snapshot of the aim direction.
    pub fn aim_direction(&self) -> (r: Vec3Fx)
        ensures
            r@ == self.aim(),
    {
        self.aim_direction
    }

    /// Read-only snapshot of the accumulated power.
    pub fn power(&self) -> (r: i64)
        ensures
            r == self.pow(),
    {
        self.power
    }

    /// Read-only snapshot of the ball's mode.
    pub fn state(&self) -> (r: BallState)
        ensures
            r == self.mode(),
    {
        self.state
    }

    /// Read-only snapshot of the stroke counter.
    pub fn stroke_count(&self) -> (r: u32)
        ensures
            r == self.strokes(),
    {
        self.stroke_count
    }

    /// Read-only snapshot of the session outcome.
    pub fn session_end(&self) -> (r: Option<EndReason>)
        ensures
            r == self.done(),
    {
        self.ended
    }

    /// Evaluates the win condition: true exactly when the ball's centre is
    /// strictly within the hole's capture radius, whatever the ball's mode.
    /// The first win ends the session and starts the deferred end pause;
    /// an already-ended session keeps its outcome.
    pub fn check_win(&mut self, hole: &Hole) -> (won: bool)
        requires
            old(self).wf(),
            hole.wf(),
        ensures
            final(self).wf(),
            won == (dist2(old(self).pos(), hole.position@) < hole.capture_radius
                * hole.capture_radius),
            !won ==> *final(self) == *old(self),
            won ==> final(self).same_core(*old(self)),
            won && old(self).done() is Some ==> *final(self) == *old(self),
            won && old(self).done() is None ==> final(self).done() == Some(EndReason::Won)
                && final(self).delay_left() == END_DELAY_TICKS as int,
    {
        let d2 = dist2_fx(&self.position, &hole.position);
        proof {
            lemma_sq_bound(hole.capture_radius as int, COORD_CAP as int);
        }
        let r2: i128 = (hole.capture_radius as i128) * (hole.capture_radius as i128);
        if d2 < r2 {
            match self.ended {
                Option::None => {
                    self.ended = Some(EndReason::Won);
                    self.end_delay = END_DELAY_TICKS;
                },
                Option::Some(_) => {},
            }
            true
        } else {
            false
        }
    }

    /// Aborts the session: the outcome becomes `Quit` unless it is already
    /// set, and any deferred end pause is cut short at once.
    pub fn quit(&mut self)
        requires
            old(self).wf(),
        ensures
            final(self).wf(),
            final(self).same_core(*old(self)),
            final(self).delay_left() == 0,
            final(self).done() == if old(self).done() is None {
                Some(EndReason::Quit)
            } else {
                old(self).done()
            },
    {
        match self.ended {
            Option::None => {
                self.ended = Some(EndReason::Quit);
            },
            Option::Some(_) => {},
        }
        self.end_delay = 0;
    }

    /// Advances the deferred end-of-session pause by one tick and reports
    /// whether the caller should now leave the loop.  Before the session
    /// ends this changes nothing and never fires.
    pub fn tick_end_delay(&mut self) -> (finished: bool)
        requires
            old(self).wf(),
        ensures
            final(self).wf(),
            final(self).same_core(*old(self)),
            final(self).done() == old(self).done(),
            final(self).delay_left() == if old(self).delay_left() > 0 {
                old(self).delay_left() - 1
            } else {
                0int
            },
            finished == (old(self).done() is Some && final(self).delay_left() == 0),
    {
        if self.end_delay > 0 {
            self.end_delay = self.end_delay - 1;
        }
        match self.ended {
            Option::None => false,
            Option::Some(_) => self.end_delay == 0,
        }
    }

    /// Launches the ball: accepted only while aiming in a live session, a
    /// no-op otherwise.  The velocity becomes `aim * power * LAUNCH_SCALE`,
    /// the stroke counter steps by exactly one, the power resets to zero
    /// and the ball goes in flight.  Returns whether the launch fired, so
    /// the caller can raise its launch event.
    pub fn launch(&mut self) -> (launched: bool)
        requires
            old(self).wf(),
        ensures
            final(self).wf(),
            launched == (old(self).done() is None && old(self).mode() == BallState::Aiming),
            !launched ==> *final(self) == *old(self),
            launched ==> {
                &&& final(self).vel() == launch_vel(old(self).aim(), old(self).pow())
                &&& final(self).pow() == 0
                &&& final(self).mode() == BallState::InFlight
                &&& final(self).strokes() == if old(self).strokes() < u32::MAX as int {
                    old(self).strokes() + 1
                } else {
                    old(self).strokes()
                }
                &&& final(self).pos() == old(self).pos()
                &&& final(self).aim() == old(self).aim()
                &&& final(self).done() == old(self).done()
                &&& final(self).delay_left() == old(self).delay_left()
            },
    {
        match self.ended {
            Option::Some(_) => {
                return false;
            },
            Option::None => {},
        }
        match self.state {
            BallState::InFlight => {
                return false;
            },
            BallState::Aiming => {},
        }
        let k: i64 = LAUNCH_SCALE * self.power;
        proof {
            lemma_comp_bound(self.aim(), 1010);
            lemma_mul_bound(k as int, self.aim().0, 64_000, 1010);
            lemma_mul_bound(k as int, self.aim().1, 64_000, 1010);
            lemma_mul_bound(k as int, self.aim().2, 64_000, 1010);
            lemma_tdiv_mag(k as int * self.aim().0, SCALE as int);
            lemma_tdiv_mag(k as int * self.aim().1, SCALE as int);
            lemma_tdiv_mag(k as int * self.aim().2, SCALE as int);
        }
        self.velocity = Vec3Fx {
            x: tdiv64(k * self.aim_direction.x, SCALE),
            y: tdiv64(k * self.aim_direction.y, SCALE),
            z: tdiv64(k * self.aim_direction.z, SCALE),
        };
        self.state = BallState::InFlight;
        self.power = 0;
        if self.stroke_count < u32::MAX {
            self.stroke_count = self.stroke_count + 1;
        }
        true
    }

    /// Advances the physics by one tick of length `dt` (fixed-point
    /// seconds): gravity while airborne, ground contact, the positional
    /// move, friction, then the stop test that zeroes a slow velocity and
    /// puts an in-flight ball back in aiming mode.  After the session has
    /// ended this is a no-op.  The ball's rolling rotation is a purely
    /// visual quantity derived from the velocity and is left to the
    /// renderer.
    pub fn integrate(&mut self, dt: i64)
        requires
            old(self).wf(),
            0 <= dt <= DT_CAP,
        ensures
            final(self).wf(),
            old(self).done() is Some ==> *final(self) == *old(self),
            old(self).done() is None ==> {
                &&& final(self).pos() == integrate_pos(old(self).pos(), old(self).vel(), dt as int)
                &&& ({
                    let v3 = integrate_vel(old(self).pos(), old(self).vel(), dt as int);
                    if is_stopped(v3) {
                        final(self).vel() == (0int, 0int, 0int) && final(self).mode()
                            == BallState::Aiming
                    } else {
                        final(self).vel() == v3 && final(self).mode() == old(self).mode()
                    }
                })
                &&& final(self).aim() == old(self).aim()
                &&& final(self).pow() == old(self).pow()
                &&& final(self).strokes() == old(self).strokes()
                &&& final(self).done() == old(self).done()
                &&& final(self).delay_left() == old(self).delay_left()
            },
    {
        match self.ended {
            Option::Some(_) => {
                return;
            },
            Option::None => {},
        }
        if self.position.y > GROUND_Y {
            proof {
                lemma_tdiv_mag((GRAVITY as int) * (dt as int), SCALE as int);
            }
            let dv = tdiv64(GRAVITY * dt, SCALE);
            self.velocity.y = sat64(self.velocity.y + dv);
        }
        if self.position.y < GROUND_Y {
            self.position.y = GROUND_Y;
            self.velocity.y = 0;
        }
        proof {
            lemma_mul_bound(self.vel().0, dt as int, COORD_CAP as int, DT_CAP as int);
            lemma_mul_bound(self.vel().1, dt as int, COORD_CAP as int, DT_CAP as int);
            lemma_mul_bound(self.vel().2, dt as int, COORD_CAP as int, DT_CAP as int);
            lemma_tdiv_mag(self.vel().0 * (dt as int), SCALE as int);
            lemma_tdiv_mag(self.vel().1 * (dt as int), SCALE as int);
            lemma_tdiv_mag(self.vel().2 * (dt as int), SCALE as int);
        }
        let sx = tdiv64(self.velocity.x * dt, SCALE);
        let sy = tdiv64(self.velocity.y * dt, SCALE);
        let sz = tdiv64(self.velocity.z * dt, SCALE);
        self.position.x = sat64(self.position.x + sx);
        self.position.y = sat64(self.position.y + sy);
        self.position.z = sat64(self.position.z + sz);
        proof {
            lemma_tdiv_mag(self.vel().0 * (FRICTION_NUM as int), FRICTION_DEN as int);
            lemma_tdiv_mag(self.vel().1 * (FRICTION_NUM as int), FRICTION_DEN as int);
            lemma_tdiv_mag(self.vel().2 * (FRICTION_NUM as int), FRICTION_DEN as int);
        }
        self.velocity.x = tdiv64(self.velocity.x * FRICTION_NUM, FRICTION_DEN);
        self.velocity.y = tdiv64(self.velocity.y * FRICTION_NUM, FRICTION_DEN);
        self.velocity.z = tdiv64(self.velocity.z * FRICTION_NUM, FRICTION_DEN);
        let n2 = norm2_fx(&self.velocity);
        proof {
            assert((STOP_EPSILON as int) * (STOP_EPSILON as int) == 10_000) by (nonlinear_arith);
        }
        if n2 < (STOP_EPSILON as i128) * (STOP_EPSILON as i128) {
            self.velocity = Vec3Fx::zero();
            match self.state {
                BallState::InFlight => {
                    self.state = BallState::Aiming;
                },
                BallState::Aiming => {},
            }
        }
    }

    /// Adjusts the aim while aiming in a live session: each pressed
    /// rotation turns the aim direction by one fixed step (multiplicative,
    /// renormalized afterwards to counter the fixed-point growth), and the
    /// power moves by `power_delta`, clamped to `[0, MAX_POWER]`.  In
    /// flight or after the session end this is a no-op with no effect on
    /// any field: ignored aim input is not an error.
    #[verifier::rlimit(100)]
    pub fn adjust_aim(
        &mut self,
        rotate_left: bool,
        rotate_right: bool,
        tilt_up: bool,
        tilt_down: bool,
        power_delta: i64,
    )
        requires
            old(self).wf(),
        ensures
            final(self).wf(),
            !(old(self).done() is None && old(self).mode() == BallState::Aiming) ==> *final(self)
                == *old(self),
            old(self).done() is None && old(self).mode() == BallState::Aiming ==> {
                &&& final(self).aim() == adjusted_aim(
                    old(self).aim(),
                    rotate_left,
                    rotate_right,
                    tilt_up,
                    tilt_down,
                )
                &&& final(self).pow() == clamped(
                    old(self).pow() + power_delta as int,
                    0,
                    MAX_POWER as int,
                )
                &&& final(self).pos() == old(self).pos()
                &&& final(self).vel() == old(self).vel()
                &&& final(self).mode() == old(self).mode()
                &&& final(self).strokes() == old(self).strokes()
                &&& final(self).done() == old(self).done()
                &&& final(self).delay_left() == old(self).delay_left()
            },
    {
        match self.ended {
            Option::Some(_) => {
                return;
            },
            Option::None => {},
        }
        match self.state {
            BallState::InFlight => {
                return;
            },
            BallState::Aiming => {},
        }
        if rotate_left || rotate_right || tilt_up || tilt_down {
            let mut a = self.aim_direction;
            if rotate_left {
                proof {
                    lemma_comp_bound(a@, 1010);
                    lemma_rot_y_norm(a@, ROT_SIN as int);
                }
                a = rot_y_fx(&a, ROT_SIN);
            }
            if rotate_right {
                proof {
                    lemma_comp_bound(a@, 1010);
                    lemma_rot_y_norm(a@, -(ROT_SIN as int));
                }
                a = rot_y_fx(&a, -ROT_SIN);
            }
            if tilt_up {
                proof {
                    lemma_comp_bound(a@, 1010);
                    lemma_rot_x_norm(a@, ROT_SIN as int);
                }
                a = rot_x_fx(&a, ROT_SIN);
            }
            if tilt_down {
                proof {
                    lemma_comp_bound(a@, 1010);
                    lemma_rot_x_norm(a@, -(ROT_SIN as int));
                }
                a = rot_x_fx(&a, -ROT_SIN);
            }
            proof {
                lemma_normalized_norm(a@);
            }
            a = normalize_fx(&a);
            self.aim_direction = a;
        }
        let pd: i128 = self.power as i128 + power_delta as i128;
        self.power = if pd < 0 {
            0
        } else if pd > MAX_POWER as i128 {
            MAX_POWER
        } else {
            pd as i64
        };
    }

    /// Reflects the ball's velocity off every obstacle currently in
    /// contact, in iteration order, with no positional correction:
    /// overlapping obstacles apply sequentially, an approximation kept from
    /// the original design rather than a multi-body solve.  After the
    /// session has ended this is a no-op.
    pub fn resolve_obstacle_collisions(&mut self, obstacles: &Vec<Obstacle>)
        requires
            old(self).wf(),
            forall|i: int| 0 <= i < obstacles@.len() ==> (#[trigger] obstacles@[i]).wf(),
        ensures
            final(self).wf(),
            old(self).done() is Some ==> *final(self) == *old(self),
            old(self).done() is None ==> {
                &&& final(self).vel() == collide_seq(old(self).pos(), old(self).vel(), obstacles@)
                &&& final(self).pos() == old(self).pos()
                &&& final(self).aim() == old(self).aim()
                &&& final(self).pow() == old(self).pow()
                &&& final(self).mode() == old(self).mode()
                &&& final(self).strokes() == old(self).strokes()
                &&& final(self).done() == old(self).done()
                &&& final(self).delay_left() == old(self).delay_left()
            },
    {
        match self.ended {
            Option::Some(_) => {
                return;
            },
            Option::None => {},
        }
        let mut i: usize = 0;
        while i < obstacles.len()
            invariant
                self.wf(),
                i <= obstacles@.len(),
                forall|j: int| 0 <= j < obstacles@.len() ==> (#[trigger] obstacles@[j]).wf(),
                self.vel() == collide_seq(
                    old(self).pos(),
                    old(self).vel(),
                    obstacles@.take(i as int),
                ),
                self.pos() == old(self).pos(),
                self.aim() == old(self).aim(),
                self.pow() == old(self).pow(),
                self.mode() == old(self).mode(),
                self.strokes() == old(self).strokes(),
                self.done() == old(self).done(),
                self.delay_left() == old(self).delay_left(),
            decreases obstacles@.len() - i,
        {
            let o = obstacles[i];
            let d = Vec3Fx {
                x: self.position.x - o.position.x,
                y: self.position.y - o.position.y,
                z: self.position.z - o.position.z,
            };
            let thr: i64 = o.radius + BALL_RADIUS;
            proof {
                lemma_sq_bound(thr as int, 1_000_000_700);
            }
            let thr2: i128 = (thr as i128) * (thr as i128);
            let d2 = dist2_fx(&self.position, &o.position);
            if 0 < d2 && d2 < thr2 {
                let nv = reflect_fx(&self.velocity, &d);
                self.velocity = nv;
            }
            proof {
                assert(obstacles@.take(i as int + 1).drop_last() =~= obstacles@.take(i as int));
                assert(obstacles@.take(i as int + 1).last() == obstacles@[i as int]);
            }
            i = i + 1;
        }
        proof {
            assert(obstacles@.take(obstacles@.len() as int) =~= obstacles@);
        }
    }

    /// One whole fixed tick, in the order the simulation requires: physics
    /// integration, then collision resolution, then the win check last.
    /// Returns the win check's result so the caller can raise its win event.
    pub fn fixed_tick(&mut self, dt: i64, obstacles: &Vec<Obstacle>, hole: &Hole) -> (won: bool)
        requires
            old(self).wf(),
            0 <= dt <= DT_CAP,
            hole.wf(),
            forall|i: int| 0 <= i < obstacles@.len() ==> (#[trigger] obstacles@[i]).wf(),
        ensures
            final(self).wf(),
            old(self).done() is Some ==> final(self).same_core(*old(self)) && final(self).done()
                == old(self).done() && won == (dist2(old(self).pos(), hole.position@)
                < hole.capture_radius * hole.capture_radius),
            old(self).done() is None ==> ({
                let p1 = integrate_pos(old(self).pos(), old(self).vel(), dt as int);
                let v3 = integrate_vel(old(self).pos(), old(self).vel(), dt as int);
                let v4 = if is_stopped(v3) {
                    (0int, 0int, 0int)
                } else {
                    v3
                };
                &&& final(self).pos() == p1
                &&& final(self).vel() == collide_seq(p1, v4, obstacles@)
                &&& final(self).mode() == (if is_stopped(v3) {
                    BallState::Aiming
                } else {
                    old(self).mode()
                })
                &&& won == (dist2(p1, hole.position@) < hole.capture_radius * hole.capture_radius)
                &&& (won ==> final(self).done() == Some(EndReason::Won))
                &&& (!won ==> final(self).done() is None)
                &&& final(self).aim() == old(self).aim()
                &&& final(self).pow() == old(self).pow()
                &&& final(self).strokes() == old(self).strokes()
            }),
    {
        self.integrate(dt);
        self.resolve_obstacle_collisions(obstacles);
        self.check_win(hole)
    }

    /// Preview trajectory endpoint while aiming, for the renderer:
    /// `position + aim * power`.
    pub fn aim_preview_end(&self) -> (end: Vec3Fx)
        requires
            self.wf(),
        ensures
            end@ == preview_end(self.pos(), self.aim(), self.pow()),
    {
        proof {
            lemma_comp_bound(self.aim(), 1010);
            lemma_mul_bound(self.aim().0, self.pow(), 1010, MAX_POWER as int);
            lemma_mul_bound(self.aim().1, self.pow(), 1010, MAX_POWER as int);
            lemma_mul_bound(self.aim().2, self.pow(), 1010, MAX_POWER as int);
            lemma_tdiv_mag(self.aim().0 * self.pow(), SCALE as int);
            lemma_tdiv_mag(self.aim().1 * self.pow(), SCALE as int);
            lemma_tdiv_mag(self.aim().2 * self.pow(), SCALE as int);
        }
        let qx = tdiv64(self.aim_direction.x * self.power, SCALE);
        let qy = tdiv64(self.aim_direction.y * self.power, SCALE);
        let qz = tdiv64(self.aim_direction.z * self.power, SCALE);
        Vec3Fx {
            x: sat64(self.position.x + qx),
            y: sat64(self.position.y + qy),
            z: sat64(self.position.z + qz),
        }
    }
}

/// Aim invariant: a well-formed controller's aim direction is unit length
/// up to one percent, so after every `adjust_aim` (which keeps the
/// controller well-formed) the invariant still holds.
pub proof fn lemma_aim_direction_unit(b: BallPhysicsController)
    requires
        b.wf(),
    ensures
        AIM_NORM2_LO as int <= norm2(b.aim()) <= AIM_NORM2_HI as int,
{
}

/// Power bounds: a well-formed controller's power always lies in
/// `[0, MAX_POWER]`, and every operation keeps the controller well-formed.
pub proof fn lemma_power_bounds(b: BallPhysicsController)
    requires
        b.wf(),
    ensures
        0 <= b.pow() <= MAX_POWER as int,
{
}

/// Launch determinism along an axis: aiming straight along x with power
/// `pw` launches at exactly `(pw * LAUNCH_SCALE, 0, 0)`.
pub proof fn lemma_launch_axis(pw: int)
    requires
        0 <= pw <= MAX_POWER as int,
    ensures
        launch_vel((SCALE as int, 0int, 0int), pw) == ((LAUNCH_SCALE as int) * pw, 0int, 0int),
{
    lemma_tdiv_exact((LAUNCH_SCALE as int) * pw, SCALE as int);
    lemma_tdiv_exact(0, SCALE as int);
    assert((LAUNCH_SCALE as int) * pw * (SCALE as int) == ((LAUNCH_SCALE as int) * pw) * (
    SCALE as int));
    assert((LAUNCH_SCALE as int) * pw * 0 == 0) by (nonlinear_arith);
}

/// Energy decay: one tick of friction keeps at most `0.96^2` of the squared
/// speed, so repeated integration drives any speed below the stop threshold.
pub proof fn lemma_friction_decay(v: (int, int, int))
    ensures
        10_000 * norm2(fric_vel(v)) <= 9_216 * norm2(v),
        norm2(fric_vel(v)) <= norm2(v),
{
    let f = fric_vel(v);
    lemma_tdiv_mag(v.0 * (FRICTION_NUM as int), FRICTION_DEN as int);
    lemma_tdiv_mag(v.1 * (FRICTION_NUM as int), FRICTION_DEN as int);
    lemma_tdiv_mag(v.2 * (FRICTION_NUM as int), FRICTION_DEN as int);
    lemma_mag_sq(v.0);
    lemma_mag_sq(v.1);
    lemma_mag_sq(v.2);
    lemma_mag_sq(f.0);
    lemma_mag_sq(f.1);
    lemma_mag_sq(f.2);
    assert(10_000 * (mag(f.0) * mag(f.0)) <= 9_216 * (mag(v.0) * mag(v.0))) by (nonlinear_arith)
        requires
            0 <= 100 * mag(f.0) <= 96 * mag(v.0),
    ;
    assert(10_000 * (mag(f.1) * mag(f.1)) <= 9_216 * (mag(v.1) * mag(v.1))) by (nonlinear_arith)
        requires
            0 <= 100 * mag(f.1) <= 96 * mag(v.1),
    ;
    assert(10_000 * (mag(f.2) * mag(f.2)) <= 9_216 * (mag(v.2) * mag(v.2))) by (nonlinear_arith)
        requires
            0 <= 100 * mag(f.2) <= 96 * mag(v.2),
    ;
}

/// Reflection law at an obstacle: a ball in contact range approaching
/// head-on (velocity anti-parallel to the normal from the obstacle to the
/// ball) leaves with its velocity exactly reversed — the component along
/// the normal flips sign and the magnitude is preserved.
pub proof fn lemma_collision_head_on(p: (int, int, int), v: (int, int, int), o: Obstacle)
    requires
        in_cap(v),
        ({
            let d = vsub(p, o.position@);
            &&& 0 < norm2(d) < ((o.radius + BALL_RADIUS) as int) * ((o.radius + BALL_RADIUS) as int)
            &&& v.1 * d.0 == v.0 * d.1
            &&& v.2 * d.0 == v.0 * d.2
            &&& v.2 * d.1 == v.1 * d.2
            &&& dot(v, d) < 0
        }),
    ensures
        collide_one(p, v, o) == (-v.0, -v.1, -v.2),
        norm2(collide_one(p, v, o)) == norm2(v),
{
    lemma_reflect_head_on(v, vsub(p, o.position@));
}

/// True when the ball has moved far enough from the last trajectory marker
/// that the next marker is due.
pub fn trajectory_marker_due(pos: &Vec3Fx, prev: &Vec3Fx) -> (due: bool)
    requires
        in_cap(pos@),
        in_cap(prev@),
    ensures
        due == (dist2(pos@, prev@) > (TRAJ_STEP as int) * (TRAJ_STEP as int)),
{
    let d2 = dist2_fx(pos, prev);
    d2 > (TRAJ_STEP as i128) * (TRAJ_STEP as i128)
}

} // verus!
