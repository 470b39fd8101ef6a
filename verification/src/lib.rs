//! A 2D axis-aligned collision detection and resolution engine.
//!
//! Moving rectangular bodies are tested against static rectangular obstacles:
//! each simulation step, a swept intersection test finds whether and when a
//! body's intended displacement first touches an obstacle, and the motion
//! solver produces a corrected displacement that slides along the contacted
//! surface instead of stopping or tunnelling.  Ray queries against the same
//! static geometry support ground and contact sensing.
//!
//! All geometry uses exact integer coordinates (`i64`) and exact rational
//! times of impact (`Frac`), so the equality-based tie-breaks of the
//! algorithms (simultaneous-impact grouping, corner detection) are exact
//! rather than subject to rounding.

pub mod vec2;
pub mod frac;
pub mod rectangle;
pub mod aabb;
pub mod ray;
pub mod utils;
pub mod contact;
pub mod bodies;
pub mod raycast;
pub mod collision;
