//! A pinhole-camera ray tracer over fixed-point arithmetic.
//!
//! Scenes are built from sphere surfaces, point lights and a camera; rendering
//! casts one ray per pixel, intersects it against every surface, shades the
//! nearest hit and fills a row-major pixel buffer. All scalars are fixed-point
//! numbers: an `i64` holding `value * SCALE`, so every computation is exact
//! integer arithmetic with truncating rescales, and each operation's contract
//! states its result exactly.

pub mod camera;
pub mod color;
pub mod fx;
pub mod geometry;
pub mod light;
pub mod material;
pub mod ray;
pub mod scene;
pub mod surface;
pub mod vec3;

use vstd::prelude::*;

verus! {

/// The largest coordinate magnitude, in fixed-point steps, that scene
/// geometry and camera positions may use.
pub const WORLD_LIMIT: i64 = 0x1000000000;

/// The largest light intensity, in fixed-point steps.
pub const INTENSITY_LIMIT: i64 = 0x4000000;

/// Reasons a construction or a per-pixel query is rejected instead of
/// producing degenerate geometry.
#[derive(Clone, Copy, Debug, PartialEq, Eq, Structural)]
pub enum RenderError {
    /// The camera direction has zero length or is parallel to the up vector,
    /// so the view-plane basis degenerates.
    DegenerateCamera,
    /// A sphere was given a non-positive radius.
    NonPositiveRadius,
    /// A pixel coordinate lies outside the camera's resolution.
    PixelOutOfBounds,
    /// A ray direction came out too short to normalize at this resolution.
    DegenerateRay,
}

} // verus!
