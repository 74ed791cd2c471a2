//! Exact-arithmetic core of an animated decorative background.
//!
//! Solid convex objects spawn, drift and rotate, and a fixed plane slices
//! them; the slice of each object is an ordered flat polygon that a 2-D
//! renderer strokes. This crate holds the verified core: the mesh builder,
//! the plane/mesh cross-section engine, and the spawn/integrate/cull
//! simulation. All coordinates are integers in fixed-point units, so every
//! geometric statement is exact; the surrounding shell converts to and from
//! its own floating-point world and does the actual drawing.

pub mod geometry;
pub mod laws;
pub mod mesh;
pub mod object;
pub mod rng;
pub mod section;
pub mod state;
