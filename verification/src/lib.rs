//! A first-person grid-based raycasting renderer.
//!
//! All world coordinates and angles are fixed-point values: an `i64` holding
//! `SCALE` units per world unit (or per degree).  This keeps every part of the
//! pipeline — angle bookkeeping, the DDA ray caster, projection, shading and
//! the pixel compositor — in exact integer arithmetic, so each step carries a
//! full functional contract.

pub mod math;
pub mod geometry;
pub mod level;
pub mod camera;
pub mod raycast;
pub mod framebuffer;
