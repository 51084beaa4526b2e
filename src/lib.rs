//! A Monte-Carlo ray tracer's rendering logic: the pixel rectangle and its
//! image layout, per-pixel sampling, the depth-limited shading of a path,
//! checker textures and the scene's actors.

pub mod actor;
pub mod hit;
pub mod material;
pub mod renderer;
pub mod scene;
pub mod shading;
pub mod texture;
pub mod tree;
pub mod vector;
