//! A deterministic simulation core for chaotic-attractor particle trails.
//!
//! One live particle follows a chaotic ordinary differential equation
//! (Lorenz or Chua), advanced once per tick by an explicit Euler step.
//! Each tick also records a decaying "ghost" copy of the particle — a
//! trail point — whose lifetime grows until the point expires, and whose
//! emissive color is derived from its position through a sigmoid
//! brightness map.
//!
//! All quantities are fixed-point numbers: an `i64` holding the real value
//! scaled by [`fixed::ONE`]. This gives every operation of the core an
//! exact integer meaning, so the contracts below pin each result down to
//! the unit. Rendering, windowing and camera work are a host's concern and
//! are not part of this crate.

pub mod attractor;
pub mod fixed;
pub mod sim;
pub mod trail;
