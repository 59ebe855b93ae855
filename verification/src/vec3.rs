//! Fixed-point three-component vectors and the reflection law.

use vstd::prelude::*;

use crate::num::{
    isqrt64, lemma_mag_sq, lemma_mul_bound, lemma_sqrt_floor_exists, lemma_tdiv_exact,
    lemma_tdiv_mag, mag, sat, sat128, sqrt_floor, tdiv, tdiv128, tdiv64, COORD_CAP, ROT_COS,
    ROT_SIN, SCALE, TRIG_ONE,
};

verus! {

/// A world-space vector in fixed-point quanta (see [`crate::num::SCALE`]).
#[derive(Clone, Copy, Debug, PartialEq, Eq, Structural)]
pub struct Vec3Fx {
    pub x: i64,
    pub y: i64,
    pub z: i64,
}

impl View for Vec3Fx {
    type V = (int, int, int);

    open spec fn view(&self) -> (int, int, int) {
        (self.x as int, self.y as int, self.z as int)
    }
}

/// Squared length of a vector.
pub open spec fn norm2(v: (int, int, int)) -> int {
    v.0 * v.0 + v.1 * v.1 + v.2 * v.2
}

/// Dot product.
pub open spec fn dot(a: (int, int, int), b: (int, int, int)) -> int {
    a.0 * b.0 + a.1 * b.1 + a.2 * b.2
}

/// Componentwise difference.
pub open spec fn vsub(a: (int, int, int), b: (int, int, int)) -> (int, int, int) {
    (a.0 - b.0, a.1 - b.1, a.2 - b.2)
}

/// Squared distance between two points.
pub open spec fn dist2(a: (int, int, int), b: (int, int, int)) -> int {
    norm2(vsub(a, b))
}

/// All components within the representable playfield.
pub open spec fn in_cap(v: (int, int, int)) -> bool {
    &&& -(COORD_CAP as int) <= v.0 <= COORD_CAP as int
    &&& -(COORD_CAP as int) <= v.1 <= COORD_CAP as int
    &&& -(COORD_CAP as int) <= v.2 <= COORD_CAP as int
}

impl Vec3Fx {
    /// The zero vector.
    pub fn zero() -> (r: Vec3Fx)
        ensures
            r@ == (0int, 0int, 0int),
    {
        Vec3Fx { x: 0, y: 0, z: 0 }
    }

    /// A vector from its components.
    pub fn new(x: i64, y: i64, z: i64) -> (r: Vec3Fx)
        ensures
            r@ == (x as int, y as int, z as int),
    {
        Vec3Fx { x, y, z }
    }
}

/// A square grows with the magnitude of its base.
pub proof fn lemma_sq_bound(a: int, b: int)
    by (nonlinear_arith)
    requires
        -b <= a <= b,
    ensures
        0 <= a * a <= b * b,
{
}

/// Squared distance between two in-playfield points, exactly.
pub fn dist2_fx(a: &Vec3Fx, b: &Vec3Fx) -> (r: i128)
    requires
        in_cap(a@),
        in_cap(b@),
    ensures
        r == dist2(a@, b@),
{
    let dx: i128 = a.x as i128 - b.x as i128;
    let dy: i128 = a.y as i128 - b.y as i128;
    let dz: i128 = a.z as i128 - b.z as i128;
    proof {
        lemma_sq_bound(dx as int, 2_000_000_000);
        lemma_sq_bound(dy as int, 2_000_000_000);
        lemma_sq_bound(dz as int, 2_000_000_000);
    }
    dx * dx + dy * dy + dz * dz
}

/// Squared length of an in-playfield vector, exactly.
pub fn norm2_fx(v: &Vec3Fx) -> (r: i128)
    requires
        in_cap(v@),
    ensures
        r == norm2(v@),
{
    let x: i128 = v.x as i128;
    let y: i128 = v.y as i128;
    let z: i128 = v.z as i128;
    proof {
        lemma_sq_bound(x as int, COORD_CAP as int);
        lemma_sq_bound(y as int, COORD_CAP as int);
        lemma_sq_bound(z as int, COORD_CAP as int);
    }
    x * x + y * y + z * z
}

/// Every component of a vector is bounded by the root bound of its norm.
pub proof fn lemma_comp_bound(a: (int, int, int), b: int)
    by (nonlinear_arith)
    requires
        0 <= b,
        norm2(a) <= b * b,
    ensures
        -b <= a.0 <= b,
        -b <= a.1 <= b,
        -b <= a.2 <= b,
{
}

/// Rotation of `a` about the vertical axis by the fixed aim step, with
/// `s = ROT_SIN` turning left and `s = -ROT_SIN` turning right.
pub open spec fn rot_y(a: (int, int, int), s: int) -> (int, int, int) {
    (
        tdiv(a.0 * (ROT_COS as int) + a.2 * s, TRIG_ONE as int),
        a.1,
        tdiv(a.2 * (ROT_COS as int) - a.0 * s, TRIG_ONE as int),
    )
}

/// Rotation of `a` about the horizontal axis by the fixed aim step, with
/// `s = ROT_SIN` tilting up and `s = -ROT_SIN` tilting down.
pub open spec fn rot_x(a: (int, int, int), s: int) -> (int, int, int) {
    (
        a.0,
        tdiv(a.1 * (ROT_COS as int) - a.2 * s, TRIG_ONE as int),
        tdiv(a.1 * s + a.2 * (ROT_COS as int), TRIG_ONE as int),
    )
}

/// `a` rescaled to unit length (`SCALE` quanta), components truncated
/// toward zero.  Meaningful for `a` nonzero.
pub open spec fn normalized(a: (int, int, int)) -> (int, int, int) {
    let n = sqrt_floor(norm2(a));
    (tdiv(a.0 * (SCALE as int), n), tdiv(a.1 * (SCALE as int), n), tdiv(a.2 * (SCALE as int), n))
}

/// Rotates `a` about the vertical axis, exactly as [`rot_y`] states.
pub fn rot_y_fx(a: &Vec3Fx, s: i64) -> (r: Vec3Fx)
    requires
        -2000 <= a@.0 <= 2000,
        -2000 <= a@.2 <= 2000,
        -(ROT_SIN as int) <= s as int <= ROT_SIN as int,
    ensures
        r@ == rot_y(a@, s as int),
{
    proof {
        lemma_mul_bound(a@.0, s as int, 2000, ROT_SIN as int);
        lemma_mul_bound(a@.2, s as int, 2000, ROT_SIN as int);
    }
    let u: i64 = a.x * ROT_COS + a.z * s;
    let w: i64 = a.z * ROT_COS - a.x * s;
    Vec3Fx { x: tdiv64(u, TRIG_ONE), y: a.y, z: tdiv64(w, TRIG_ONE) }
}

/// Rotates `a` about the horizontal axis, exactly as [`rot_x`] states.
pub fn rot_x_fx(a: &Vec3Fx, s: i64) -> (r: Vec3Fx)
    requires
        -2000 <= a@.1 <= 2000,
        -2000 <= a@.2 <= 2000,
        -(ROT_SIN as int) <= s as int <= ROT_SIN as int,
    ensures
        r@ == rot_x(a@, s as int),
{
    proof {
        lemma_mul_bound(a@.1, s as int, 2000, ROT_SIN as int);
        lemma_mul_bound(a@.2, s as int, 2000, ROT_SIN as int);
    }
    let u: i64 = a.y * ROT_COS - a.z * s;
    let w: i64 = a.y * s + a.z * ROT_COS;
    Vec3Fx { x: a.x, y: tdiv64(u, TRIG_ONE), z: tdiv64(w, TRIG_ONE) }
}

/// Rescales `a` to unit length, exactly as [`normalized`] states.
pub fn normalize_fx(a: &Vec3Fx) -> (r: Vec3Fx)
    requires
        1 <= norm2(a@) <= 10_000_000_000,
    ensures
        r@ == normalized(a@),
{
    proof {
        lemma_comp_bound(a@, 100_000);
        lemma_sq_bound(a@.0, 100_000);
        lemma_sq_bound(a@.1, 100_000);
        lemma_sq_bound(a@.2, 100_000);
    }
    let n2: i64 = a.x * a.x + a.y * a.y + a.z * a.z;
    let n: u64 = isqrt64(n2 as u64);
    proof {
        assert(n >= 1 && n <= 100_000) by (nonlinear_arith)
            requires
                (n as int) * (n as int) <= n2 as int,
                (n2 as int) < ((n as int) + 1) * ((n as int) + 1),
                1 <= n2 as int,
                (n2 as int) <= 10_000_000_000,
                n as int >= 0,
        ;
    }
    let nd: i64 = n as i64;
    Vec3Fx {
        x: tdiv64(a.x * SCALE, nd),
        y: tdiv64(a.y * SCALE, nd),
        z: tdiv64(a.z * SCALE, nd),
    }
}

/// A single aim-step rotation in a coordinate plane never grows the plane's
/// squared norm (the coefficients undershoot a true rotation and the scaled
/// divisions truncate toward zero) and shrinks it by at most 5200.
proof fn lemma_rot_plane(x: int, z: int, s: int, ox: int, oz: int)
    requires
        x * x + z * z <= 1_020_100,
        -(ROT_SIN as int) <= s <= ROT_SIN as int,
        ox == tdiv(x * (ROT_COS as int) + z * s, TRIG_ONE as int),
        oz == tdiv(z * (ROT_COS as int) - x * s, TRIG_ONE as int),
    ensures
        ox * ox + oz * oz <= x * x + z * z,
        ox * ox + oz * oz >= x * x + z * z - 5200,
{
    let p = x * x + z * z;
    assert(p >= 0 && -1010 <= x <= 1010 && -1010 <= z <= 1010) by (nonlinear_arith)
        requires
            p == x * x + z * z,
            p <= 1_020_100,
    ;
    let u = x * 99_955 + z * s;
    let w = z * 99_955 - x * s;
    let r2 = 9_991_002_025 + s * s;
    assert(9_991_002_025 <= r2 <= 10_000_002_025) by (nonlinear_arith)
        requires
            r2 == 9_991_002_025int + s * s,
            -3000 <= s <= 3000,
    ;
    lemma_rot_expand(x, z, s, 99_955);
    assert(u * u + w * w == p * r2);
    assert(-103_984_550 <= u <= 103_984_550 && -103_984_550 <= w <= 103_984_550)
        by (nonlinear_arith)
        requires
            u == x * 99_955int + z * s,
            w == z * 99_955int - x * s,
            -1010 <= x <= 1010,
            -1010 <= z <= 1010,
            -3000 <= s <= 3000,
    ;
    lemma_tdiv_mag(u, 100_000);
    lemma_tdiv_mag(w, 100_000);
    let mu = mag(u);
    let mw = mag(w);
    let qu = mag(ox);
    let qw = mag(oz);
    lemma_mag_sq(u);
    lemma_mag_sq(w);
    lemma_mag_sq(ox);
    lemma_mag_sq(oz);
    assert(100_000 * qu <= mu && mu < 100_000 * (qu + 1) && qu >= 0);
    assert(100_000 * qw <= mw && mw < 100_000 * (qw + 1) && qw >= 0);
    // Truncation keeps each scaled component at or below the exact one.
    assert(10_000_000_000 * (qu * qu) <= mu * mu) by (nonlinear_arith)
        requires
            0 <= 100_000 * qu <= mu,
    ;
    assert(10_000_000_000 * (qw * qw) <= mw * mw) by (nonlinear_arith)
        requires
            0 <= 100_000 * qw <= mw,
    ;
    // Upper bound: the rotation coefficients overshoot the scale square by
    // only 2025, less than one quantum over the whole norm.
    assert(10_000_000_000 * (ox * ox + oz * oz) <= p * r2);
    assert(ox * ox + oz * oz <= p) by (nonlinear_arith)
        requires
            10_000_000_000 * (ox * ox + oz * oz) <= p * r2,
            r2 <= 10_000_002_025int,
            0 <= p <= 1_020_100,
            ox * ox + oz * oz >= 0,
    ;
    // Lower bound: each truncation loses less than one quantum.
    assert(10_000_000_000 * (qu * qu) >= mu * mu - 200_000 * mu) by (nonlinear_arith)
        requires
            100_000 * (qu + 1) > mu,
            qu >= 0,
            mu >= 0,
    ;
    assert(10_000_000_000 * (qw * qw) >= mw * mw - 200_000 * mw) by (nonlinear_arith)
        requires
            100_000 * (qw + 1) > mw,
            qw >= 0,
            mw >= 0,
    ;
    assert(10_000_000_000 * (ox * ox + oz * oz) >= p * r2 - 41_593_820_000_000int);
    assert(p * r2 >= p * 10_000_000_000int - 9_178_834_297_500int) by (nonlinear_arith)
        requires
            r2 >= 9_991_002_025int,
            0 <= p <= 1_020_100,
    ;
    assert(ox * ox + oz * oz >= p - 5200) by (nonlinear_arith)
        requires
            10_000_000_000int * (ox * ox + oz * oz) >= p * 10_000_000_000int
                - 50_772_654_297_500int,
    ;
}

/// Ring identity behind [`lemma_rot_plane`]: a plane rotation scales the
/// squared norm by the squared norm of its coefficient pair.
proof fn lemma_rot_expand(x: int, z: int, s: int, c: int)
    ensures
        (x * c + z * s) * (x * c + z * s) + (z * c - x * s) * (z * c - x * s) == (x * x + z * z) * (
        c * c + s * s),
{
    let a = x * c;
    let b = z * s;
    let d = z * c;
    let e = x * s;
    assert((a + b) * (a + b) == a * a + 2 * (a * b) + b * b) by (nonlinear_arith);
    assert((d - e) * (d - e) == d * d - 2 * (d * e) + e * e) by (nonlinear_arith);
    assert(a * b == d * e) by (nonlinear_arith)
        requires
            a == x * c,
            b == z * s,
            d == z * c,
            e == x * s,
    ;
    assert(a * a == (x * x) * (c * c)) by (nonlinear_arith)
        requires
            a == x * c,
    ;
    assert(b * b == (z * z) * (s * s)) by (nonlinear_arith)
        requires
            b == z * s,
    ;
    assert(d * d == (z * z) * (c * c)) by (nonlinear_arith)
        requires
            d == z * c,
    ;
    assert(e * e == (x * x) * (s * s)) by (nonlinear_arith)
        requires
            e == x * s,
    ;
    assert((x * x + z * z) * (c * c + s * s) == (x * x) * (c * c) + (x * x) * (s * s) + (z * z) * (c
        * c) + (z * z) * (s * s)) by (nonlinear_arith);
}

/// [`lemma_rot_plane`] lifted to [`rot_y`]: one aim step about the vertical
/// axis keeps the squared norm within `[norm2(a) - 5200, norm2(a)]`.
pub proof fn lemma_rot_y_norm(a: (int, int, int), s: int)
    requires
        norm2(a) <= 1_020_100,
        -(ROT_SIN as int) <= s <= ROT_SIN as int,
    ensures
        norm2(rot_y(a, s)) <= norm2(a),
        norm2(rot_y(a, s)) >= norm2(a) - 5200,
{
    assert(a.1 * a.1 >= 0 && a.0 * a.0 >= 0 && a.2 * a.2 >= 0) by (nonlinear_arith);
    let r = rot_y(a, s);
    lemma_rot_plane(a.0, a.2, s, r.0, r.2);
}

/// [`lemma_rot_plane`] lifted to [`rot_x`]: one aim step about the horizontal
/// axis keeps the squared norm within `[norm2(a) - 5200, norm2(a)]`.
pub proof fn lemma_rot_x_norm(a: (int, int, int), s: int)
    requires
        norm2(a) <= 1_020_100,
        -(ROT_SIN as int) <= s <= ROT_SIN as int,
    ensures
        norm2(rot_x(a, s)) <= norm2(a),
        norm2(rot_x(a, s)) >= norm2(a) - 5200,
{
    assert(a.1 * a.1 >= 0 && a.0 * a.0 >= 0 && a.2 * a.2 >= 0) by (nonlinear_arith);
    let r = rot_x(a, s);
    lemma_rot_plane(a.2, a.1, s, r.2, r.1);
}

/// Renormalizing a nearly-unit vector brings its squared norm back into a
/// tight window around `SCALE * SCALE`.
pub proof fn lemma_normalized_norm(a: (int, int, int))
    requires
        959_300 <= norm2(a) <= 1_020_100,
    ensures
        993_600 <= norm2(normalized(a)) <= 1_002_100,
{
    let nn = norm2(a);
    lemma_sqrt_floor_exists(nn);
    let n = sqrt_floor(nn);
    assert(979 <= n <= 1010) by (nonlinear_arith)
        requires
            n * n <= nn,
            nn < (n + 1) * (n + 1),
            959_300 <= nn <= 1_020_100,
            n >= 0,
    ;
    let m0 = mag(a.0);
    let m1 = mag(a.1);
    let m2 = mag(a.2);
    lemma_mag_sq(a.0);
    lemma_mag_sq(a.1);
    lemma_mag_sq(a.2);
    assert(m0 <= 1010 && m1 <= 1010 && m2 <= 1010) by (nonlinear_arith)
        requires
            m0 * m0 + m1 * m1 + m2 * m2 <= 1_020_100,
            m0 >= 0,
            m1 >= 0,
            m2 >= 0,
    ;
    lemma_tdiv_mag(a.0 * (SCALE as int), n);
    lemma_tdiv_mag(a.1 * (SCALE as int), n);
    lemma_tdiv_mag(a.2 * (SCALE as int), n);
    assert(mag(a.0 * 1000) == m0 * 1000 && mag(a.1 * 1000) == m1 * 1000 && mag(a.2 * 1000) == m2
        * 1000) by (nonlinear_arith)
        requires
            m0 == mag(a.0) && m1 == mag(a.1) && m2 == mag(a.2),
            mag(a.0 * 1000) == if a.0 * 1000 >= 0 {
                a.0 * 1000int
            } else {
                -(a.0 * 1000)
            },
            mag(a.1 * 1000) == if a.1 * 1000 >= 0 {
                a.1 * 1000int
            } else {
                -(a.1 * 1000)
            },
            mag(a.2 * 1000) == if a.2 * 1000 >= 0 {
                a.2 * 1000int
            } else {
                -(a.2 * 1000)
            },
            m0 == if a.0 >= 0 {
                a.0
            } else {
                -a.0
            },
            m1 == if a.1 >= 0 {
                a.1
            } else {
                -a.1
            },
            m2 == if a.2 >= 0 {
                a.2
            } else {
                -a.2
            },
    ;
    let o = normalized(a);
    let q0 = mag(o.0);
    let q1 = mag(o.1);
    let q2 = mag(o.2);
    lemma_mag_sq(o.0);
    lemma_mag_sq(o.1);
    lemma_mag_sq(o.2);
    // Per component, truncation keeps the scaled magnitude at or below the
    // exact quotient and loses less than one quantum below it.
    assert(n * n * (q0 * q0) <= 1_000_000 * (m0 * m0)) by (nonlinear_arith)
        requires
            0 <= n * q0 <= 1000 * m0,
            q0 >= 0,
            n >= 1,
    ;
    assert(n * n * (q1 * q1) <= 1_000_000 * (m1 * m1)) by (nonlinear_arith)
        requires
            0 <= n * q1 <= 1000 * m1,
            q1 >= 0,
            n >= 1,
    ;
    assert(n * n * (q2 * q2) <= 1_000_000 * (m2 * m2)) by (nonlinear_arith)
        requires
            0 <= n * q2 <= 1000 * m2,
            q2 >= 0,
            n >= 1,
    ;
    assert(n * n * (q0 * q0) >= 1_000_000 * (m0 * m0) - 2000 * n * m0) by (nonlinear_arith)
        requires
            n * (q0 + 1) > 1000 * m0,
            q0 >= 0,
            m0 >= 0,
            n >= 1,
    ;
    assert(n * n * (q1 * q1) >= 1_000_000 * (m1 * m1) - 2000 * n * m1) by (nonlinear_arith)
        requires
            n * (q1 + 1) > 1000 * m1,
            q1 >= 0,
            m1 >= 0,
            n >= 1,
    ;
    assert(n * n * (q2 * q2) >= 1_000_000 * (m2 * m2) - 2000 * n * m2) by (nonlinear_arith)
        requires
            n * (q2 + 1) > 1000 * m2,
            q2 >= 0,
            m2 >= 0,
            n >= 1,
    ;
    let o2 = norm2(o);
    assert(o2 == q0 * q0 + q1 * q1 + q2 * q2);
    assert(n * n * o2 <= 1_000_000 * nn && n * n * o2 >= 1_000_000 * nn - 2000 * n * (m0 + m1
        + m2)) by (nonlinear_arith)
        requires
            o2 == q0 * q0 + q1 * q1 + q2 * q2,
            nn == m0 * m0 + m1 * m1 + m2 * m2,
            n * n * (q0 * q0) <= 1_000_000 * (m0 * m0),
            n * n * (q1 * q1) <= 1_000_000 * (m1 * m1),
            n * n * (q2 * q2) <= 1_000_000 * (m2 * m2),
            n * n * (q0 * q0) >= 1_000_000 * (m0 * m0) - 2000 * n * m0,
            n * n * (q1 * q1) >= 1_000_000 * (m1 * m1) - 2000 * n * m1,
            n * n * (q2 * q2) >= 1_000_000 * (m2 * m2) - 2000 * n * m2,
    ;
    assert(o2 <= 1_002_100) by (nonlinear_arith)
        requires
            n * n * o2 <= 1_000_000 * nn,
            nn < (n + 1) * (n + 1),
            979 <= n <= 1010,
    ;
    assert(o2 >= 993_600) by (nonlinear_arith)
        requires
            n * n * o2 >= 1_000_000 * nn - 2000 * n * (m0 + m1 + m2),
            nn >= n * n,
            0 <= m0 <= 1010,
            0 <= m1 <= 1010,
            0 <= m2 <= 1010,
            979 <= n <= 1010,
    ;
}

/// Elastic reflection of a velocity `v` off a surface whose unnormalized
/// normal is `d`: `v - 2 (v.d / d.d) d`, each scaled division truncating and
/// each component saturated to the playfield.  Meaningful for `d` nonzero.
pub open spec fn reflect(v: (int, int, int), d: (int, int, int)) -> (int, int, int) {
    let den = norm2(d);
    let k = 2 * dot(v, d);
    (sat(v.0 - tdiv(k * d.0, den)), sat(v.1 - tdiv(k * d.1, den)), sat(v.2 - tdiv(k * d.2, den)))
}

/// Components of the surface normal fit in twice the playfield (it is a
/// difference of two in-playfield points).
pub open spec fn in_cap2(d: (int, int, int)) -> bool {
    &&& -2 * (COORD_CAP as int) <= d.0 <= 2 * (COORD_CAP as int)
    &&& -2 * (COORD_CAP as int) <= d.1 <= 2 * (COORD_CAP as int)
    &&& -2 * (COORD_CAP as int) <= d.2 <= 2 * (COORD_CAP as int)
}

/// Reflects `v` off the surface normal `d`, exactly as [`reflect`] states.
pub fn reflect_fx(v: &Vec3Fx, d: &Vec3Fx) -> (r: Vec3Fx)
    requires
        in_cap(v@),
        in_cap2(d@),
        norm2(d@) > 0,
    ensures
        r@ == reflect(v@, d@),
{
    let vx: i128 = v.x as i128;
    let vy: i128 = v.y as i128;
    let vz: i128 = v.z as i128;
    let dx: i128 = d.x as i128;
    let dy: i128 = d.y as i128;
    let dz: i128 = d.z as i128;
    proof {
        lemma_sq_bound(dx as int, 2_000_000_000);
        lemma_sq_bound(dy as int, 2_000_000_000);
        lemma_sq_bound(dz as int, 2_000_000_000);
        lemma_mul_bound(vx as int, dx as int, 1_000_000_000, 2_000_000_000);
        lemma_mul_bound(vy as int, dy as int, 1_000_000_000, 2_000_000_000);
        lemma_mul_bound(vz as int, dz as int, 1_000_000_000, 2_000_000_000);
    }
    let den: i128 = dx * dx + dy * dy + dz * dz;
    let k: i128 = 2 * (vx * dx + vy * dy + vz * dz);
    proof {
        lemma_mul_bound(k as int, dx as int, 12_000_000_000_000_000_000, 2_000_000_000);
        lemma_mul_bound(k as int, dy as int, 12_000_000_000_000_000_000, 2_000_000_000);
        lemma_mul_bound(k as int, dz as int, 12_000_000_000_000_000_000, 2_000_000_000);
        lemma_tdiv_mag(k * dx, den as int);
        lemma_tdiv_mag(k * dy, den as int);
        lemma_tdiv_mag(k * dz, den as int);
    }
    let qx: i128 = tdiv128(k * dx, den);
    let qy: i128 = tdiv128(k * dy, den);
    let qz: i128 = tdiv128(k * dz, den);
    Vec3Fx { x: sat128(vx - qx), y: sat128(vy - qy), z: sat128(vz - qz) }
}

/// Reflection law for a head-on approach: when the velocity is anti-parallel
/// to the surface normal (cross product zero, negative dot product), the
/// reflected velocity is the exact reversal, so the component along the
/// normal flips sign and the magnitude is preserved.
pub proof fn lemma_reflect_head_on(v: (int, int, int), d: (int, int, int))
    requires
        in_cap(v),
        v.1 * d.0 == v.0 * d.1,
        v.2 * d.0 == v.0 * d.2,
        v.2 * d.1 == v.1 * d.2,
        dot(v, d) < 0,
    ensures
        reflect(v, d) == (-v.0, -v.1, -v.2),
        norm2(reflect(v, d)) == norm2(v),
{
    let den = norm2(d);
    assert(den >= 0 && (den == 0 ==> d.0 == 0 && d.1 == 0 && d.2 == 0)) by (nonlinear_arith)
        requires
            den == d.0 * d.0 + d.1 * d.1 + d.2 * d.2,
    ;
    assert(den > 0);
    let k = 2 * dot(v, d);
    assert(k * d.0 == (2 * v.0) * den) by (nonlinear_arith)
        requires
            v.1 * d.0 == v.0 * d.1,
            v.2 * d.0 == v.0 * d.2,
            k == 2 * (v.0 * d.0 + v.1 * d.1 + v.2 * d.2),
            den == d.0 * d.0 + d.1 * d.1 + d.2 * d.2,
    ;
    assert(k * d.1 == (2 * v.1) * den) by (nonlinear_arith)
        requires
            v.1 * d.0 == v.0 * d.1,
            v.2 * d.1 == v.1 * d.2,
            k == 2 * (v.0 * d.0 + v.1 * d.1 + v.2 * d.2),
            den == d.0 * d.0 + d.1 * d.1 + d.2 * d.2,
    ;
    assert(k * d.2 == (2 * v.2) * den) by (nonlinear_arith)
        requires
            v.2 * d.0 == v.0 * d.2,
            v.2 * d.1 == v.1 * d.2,
            k == 2 * (v.0 * d.0 + v.1 * d.1 + v.2 * d.2),
            den == d.0 * d.0 + d.1 * d.1 + d.2 * d.2,
    ;
    lemma_tdiv_exact(2 * v.0, den);
    lemma_tdiv_exact(2 * v.1, den);
    lemma_tdiv_exact(2 * v.2, den);
    assert(reflect(v, d) == (-v.0, -v.1, -v.2));
    assert((-v.0) * (-v.0) == v.0 * v.0 && (-v.1) * (-v.1) == v.1 * v.1 && (-v.2) * (-v.2) == v.2
        * v.2) by (nonlinear_arith);
}

} // verus!
