//! A software 3D renderer: fixed-point linear algebra, camera and projection
//! transforms, and a scan-converting rasterizer with per-pixel depth testing.
//!
//! All geometry is carried in signed 64-bit fixed-point scalars with 16
//! fractional bits, so every arithmetic step has an exact integer meaning
//! that the contracts state directly.

pub mod fixed;
pub mod vector;
pub mod matrix;
pub mod camera;
pub mod light;
pub mod mesh;
pub mod renderer;
pub mod laws;
pub mod off;
