//! A first-person 2D raycasting renderer verified with Verus.
//!
//! World geometry, colors and angles are held in 64-bit fixed-point values
//! (`SCALE` units to one), so every step of the pipeline — ray/segment
//! intersection, nearest-hit resolution, texture sampling and blending,
//! perspective projection, and the temporal framebuffer — is exact integer
//! arithmetic with proved contracts.

pub mod audio;
pub mod camera;
pub mod renderer;
pub mod scene;
pub mod fixed;
pub mod texture;

pub use fixed::Vec2;
