//! A software 3D rasterization pipeline over fixed-point coordinates.
//!
//! Meshes are flat vertex/face lists; each frame a model matrix built from
//! translation and Euler-angle parameters carries every vertex to world
//! space, a pinhole projection and viewport mapping carry it on to screen
//! space, and triangles are filled with a depth-buffered barycentric test
//! and flat lighting. All coordinates are fixed-point integers with
//! `SCALE` units to one.
use vstd::prelude::*;

pub mod fixed;
pub mod geom;
pub mod transform;
pub mod light;
pub mod mesh;
pub mod raster;

verus! {

/// Fixed-point unit: coordinate values carry this many units to one.
pub const SCALE: i64 = 65536;

/// Largest coordinate magnitude the pipeline works with.
pub const COORD_BOUND: i64 = 268435456;

/// Width and height of the render target, in pixels.
pub const WIDTH: usize = 800;

pub const HEIGHT: usize = 600;

/// Normalized device coordinates are clamped to this magnitude (eight
/// screens out) before the viewport mapping.
pub const NDC_BOUND: i64 = 524288;

/// Largest magnitude of a translation offset.
pub const TRANS_BOUND: i64 = 67108864;

/// Largest magnitude of a model matrix entry.
pub const MAT_BOUND: i64 = 17179869184;

/// Largest magnitude of a mesh vertex coordinate.
pub const VERT_BOUND: i64 = 4194304;

/// Largest magnitude a transformed vertex coordinate can reach.
pub const APPLY_BOUND: i64 = 281474976710656;

/// One key event turns the object about x by this angle (about 0.05 rad).
pub const ROT_STEP: i64 = 3431;

/// One key event moves the object along z by this offset (0.3 units).
pub const TRANS_STEP: i64 = 19661;

/// Triangles whose doubled screen area is below this threshold are
/// skipped as degenerate.
pub const AREA_EPS: i64 = 429497;

/// The depth value farther than every finite depth: the cleared buffer.
pub const DEPTH_INF: i64 = 9223372036854775807;

/// Largest width or height of a frame buffer.
pub const MAX_DIM: usize = 4096;

} // verus!
