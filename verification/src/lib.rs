//! Exact 2D view and interaction core for a triangle-cutting visualizer.
//!
//! The library covers the mapping between model coordinates and screen
//! coordinates, adaptive axis tick planning, a display list of styled
//! figures, a renderer that turns a display list into a deterministic
//! sequence of drawing commands, and the pointer-interaction state machine
//! that lets a user drag triangle corners under a non-degeneracy invariant.
//!
//! All coordinates are exact rational numbers, so every geometric contract
//! is stated and proved without rounding error.

pub mod display;
pub mod geom;
pub mod interact;
pub mod projection;
pub mod rat;
pub mod render;
pub mod route;
pub mod scene;
pub mod ticks;
