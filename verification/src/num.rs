//! Fixed-point scalar arithmetic: the session's tunable constants, the
//! truncating division the physics uses, saturation to the representable
//! playfield, and an integer square root for renormalizing the aim direction.

use vstd::prelude::*;

verus! {

/// Number of fixed-point quanta per world unit.  A length of 1.0 units is
/// stored as `SCALE`; velocities are quanta per second.
pub const SCALE: i64 = 1000;

/// Largest magnitude any stored coordinate or velocity component may take.
/// Results that would leave this playfield are saturated to its edge.
pub const COORD_CAP: i64 = 1_000_000_000;

/// Largest tick duration `integrate` accepts, in fixed-point seconds
/// (1000 seconds).
pub const DT_CAP: i64 = 1_000_000;

/// Gravity, quanta per second per second (-9.81 units/s^2).
pub const GRAVITY: i64 = -9810;

/// Resting height of the ball's centre above the ground plane (0.4 units).
pub const GROUND_Y: i64 = 400;

/// Friction keeps `FRICTION_NUM / FRICTION_DEN` of each velocity component
/// every tick (0.96, a tunable).
pub const FRICTION_NUM: i64 = 96;
/// See [`FRICTION_NUM`].
pub const FRICTION_DEN: i64 = 100;

/// Speed below which the ball is considered at rest (0.1 units/s).
pub const STOP_EPSILON: i64 = 100;

/// Largest shot strength the player can accumulate (8.0, a tunable).
pub const MAX_POWER: i64 = 8000;

/// Multiplier from accumulated power to initial speed (a tunable; the launch
/// velocity is `aim * power * LAUNCH_SCALE`).
pub const LAUNCH_SCALE: i64 = 8;

/// Effective radius of the ball for obstacle contact (0.7 units; together
/// with the course's obstacle radius of 2.0 this gives the contact
/// threshold of 2.7 units).
pub const BALL_RADIUS: i64 = 700;

/// Denominator of the aim-rotation coefficients below.
pub const TRIG_ONE: i64 = 100_000;
/// `cos(0.03 rad) * TRIG_ONE`: one aim-adjustment step per tick.
pub const ROT_COS: i64 = 99_955;
/// `sin(0.03 rad) * TRIG_ONE`.
pub const ROT_SIN: i64 = 3000;

/// Window the squared norm of the aim direction always stays in: the aim is
/// unit length up to one percent (`990^2 <= |aim|^2 <= 1010^2`).
pub const AIM_NORM2_LO: i64 = 980_100;
/// See [`AIM_NORM2_LO`].
pub const AIM_NORM2_HI: i64 = 1_020_100;

/// Distance the ball must travel from the last trajectory marker before the
/// next one is due (0.5 units).
pub const TRAJ_STEP: i64 = 500;

/// Ticks the session lingers after the win fires before it asks the caller
/// to exit (400 ms at 60 Hz), so the simulation loop never blocks.
pub const END_DELAY_TICKS: u32 = 24;

/// Truncating (round-toward-zero) division, the semantics of every scaled
/// division in the physics.  Meaningful for `b > 0`.
pub open spec fn tdiv(a: int, b: int) -> int {
    if a >= 0 {
        a / b
    } else {
        -((-a) / b)
    }
}

/// `x` forced into `[lo, hi]`.
pub open spec fn clamped(x: int, lo: int, hi: int) -> int {
    if x < lo {
        lo
    } else if x > hi {
        hi
    } else {
        x
    }
}

/// `x` saturated to the representable playfield.
pub open spec fn sat(x: int) -> int {
    clamped(x, -(COORD_CAP as int), COORD_CAP as int)
}

/// Magnitude of an integer.
pub open spec fn mag(x: int) -> int {
    if x >= 0 {
        x
    } else {
        -x
    }
}

/// A magnitude squares to the same value as the number itself.
pub proof fn lemma_mag_sq(x: int)
    ensures
        mag(x) * mag(x) == x * x,
        mag(x) >= 0,
{
    if x < 0 {
        assert((-x) * (-x) == x * x) by (nonlinear_arith);
    }
}

/// A product is bounded by the product of the factors' bounds.
pub proof fn lemma_mul_bound(a: int, b: int, ba: int, bb: int)
    by (nonlinear_arith)
    requires
        -ba <= a <= ba,
        -bb <= b <= bb,
    ensures
        -(ba * bb) <= a * b <= ba * bb,
{
}

/// Truncating division acts on the magnitude and keeps the sign, and a
/// positive divisor never grows the magnitude.
pub proof fn lemma_tdiv_mag(a: int, b: int)
    requires
        b > 0,
    ensures
        mag(tdiv(a, b)) == mag(a) / b,
        tdiv(a, b) == if a >= 0 {
            mag(a) / b
        } else {
            -(mag(a) / b)
        },
        0 <= mag(a) / b <= mag(a),
        b * (mag(a) / b) <= mag(a) < b * (mag(a) / b + 1),
{
    let m = mag(a);
    vstd::arithmetic::div_mod::lemma_div_pos_is_pos(m, b);
    vstd::arithmetic::div_mod::lemma_div_nonincreasing(m, b);
    vstd::arithmetic::div_mod::lemma_fundamental_div_mod(m, b);
    vstd::arithmetic::div_mod::lemma_mod_bound(m, b);
    assert(b * (m / b + 1) == b * (m / b) + b) by (nonlinear_arith);
}

/// Dividing an exact multiple recovers the factor.
pub proof fn lemma_tdiv_exact(m: int, d: int)
    requires
        d > 0,
    ensures
        tdiv(m * d, d) == m,
{
    if m >= 0 {
        vstd::arithmetic::mul::lemma_mul_nonnegative(m, d);
        vstd::arithmetic::div_mod::lemma_div_multiples_vanish(m, d);
        assert(m * d == d * m) by (nonlinear_arith);
    } else {
        assert(m * d < 0 && -(m * d) == (-m) * d && (-m) * d == d * (-m)) by (nonlinear_arith)
            requires
                m < 0,
                d > 0,
        ;
        vstd::arithmetic::div_mod::lemma_div_multiples_vanish(-m, d);
    }
}

/// `r` is the integer square root of `n`, rounded down.
pub open spec fn is_sqrt_floor(n: int, r: int) -> bool {
    0 <= r && r * r <= n < (r + 1) * (r + 1)
}

/// The integer square root of `n`, rounded down.
pub open spec fn sqrt_floor(n: int) -> int {
    choose|r: int| is_sqrt_floor(n, r)
}

/// Every nonnegative integer has a rounded-down square root.
pub proof fn lemma_sqrt_floor_exists(n: int)
    requires
        n >= 0,
    ensures
        is_sqrt_floor(n, sqrt_floor(n)),
    decreases n,
{
    if n == 0 {
        assert(is_sqrt_floor(0, 0));
    } else {
        lemma_sqrt_floor_exists(n - 1);
        let r = sqrt_floor(n - 1);
        if (r + 1) * (r + 1) <= n {
            assert((r + 1) * (r + 1) < (r + 2) * (r + 2)) by (nonlinear_arith)
                requires
                    r >= 0,
            ;
            assert(is_sqrt_floor(n, r + 1));
        } else {
            assert(is_sqrt_floor(n, r));
        }
    }
}

/// The rounded-down square root is unique: any witness equals `sqrt_floor`.
pub proof fn lemma_sqrt_floor_unique(n: int, r: int)
    requires
        is_sqrt_floor(n, r),
    ensures
        sqrt_floor(n) == r,
{
    let s = sqrt_floor(n);
    assert(is_sqrt_floor(n, s));
    assert(s == r) by (nonlinear_arith)
        requires
            0 <= s && s * s <= n < (s + 1) * (s + 1),
            0 <= r && r * r <= n < (r + 1) * (r + 1),
    ;
}

/// Integer square root, rounded down.
pub fn isqrt64(n: u64) -> (r: u64)
    requires
        n <= 10_000_000_000,
    ensures
        r == sqrt_floor(n as int),
        is_sqrt_floor(n as int, r as int),
{
    let mut r: u64 = 0;
    let mut sq: u64 = 1;
    while sq <= n
        invariant
            n <= 10_000_000_000,
            r <= 100_000,
            r * r <= n,
            sq == (r + 1) * (r + 1),
        decreases 100_001 - r,
    {
        proof {
            assert(r < 100_000) by (nonlinear_arith)
                requires
                    (r + 1) * (r + 1) <= 10_000_000_000int,
                    r >= 0,
            ;
            lemma_sq_bound_u(r as int + 2, 100_002);
        }
        r = r + 1;
        sq = (r + 1) * (r + 1);
    }
    proof {
        lemma_sqrt_floor_unique(n as int, r as int);
    }
    r
}

/// A square grows with its nonnegative base.
pub proof fn lemma_sq_bound_u(a: int, b: int)
    by (nonlinear_arith)
    requires
        0 <= a <= b,
    ensures
        a * a <= b * b,
{
}

/// Truncating division on machine words.
pub fn tdiv64(a: i64, b: i64) -> (r: i64)
    requires
        b > 0,
        a > i64::MIN,
    ensures
        r == tdiv(a as int, b as int),
{
    if a >= 0 {
        a / b
    } else {
        -((-a) / b)
    }
}

/// Truncating division on wide intermediates.
pub fn tdiv128(a: i128, b: i128) -> (r: i128)
    requires
        b > 0,
        a > i128::MIN,
    ensures
        r == tdiv(a as int, b as int),
{
    if a >= 0 {
        a / b
    } else {
        -((-a) / b)
    }
}

/// Saturation of a machine word to the playfield.
pub fn sat64(x: i64) -> (r: i64)
    ensures
        r == sat(x as int),
{
    if x > COORD_CAP {
        COORD_CAP
    } else if x < -COORD_CAP {
        -COORD_CAP
    } else {
        x
    }
}

/// Saturation of a wide intermediate to the playfield.
pub fn sat128(x: i128) -> (r: i64)
    ensures
        r == sat(x as int),
{
    if x > COORD_CAP as i128 {
        COORD_CAP
    } else if x < -(COORD_CAP as i128) {
        -COORD_CAP
    } else {
        x as i64
    }
}

} // verus!
