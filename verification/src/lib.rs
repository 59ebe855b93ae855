//! Physics and aiming core of a single-player 3D mini-golf session.
//!
//! The ball's kinematic and aiming state lives in
//! [`ball::BallPhysicsController`], which advances once per fixed tick,
//! accepts aim adjustments and a launch command while aiming, reflects the
//! ball off cylindrical obstacles, and evaluates the win condition.  All
//! quantities are fixed-point integers: one world unit is [`num::SCALE`]
//! quanta, so the arithmetic is exact and every operation carries a proved
//! contract.  Rendering, audio and input belong to the caller; the core only
//! consumes plain values and returns snapshots and events.

pub mod ball;
pub mod num;
pub mod vec3;
