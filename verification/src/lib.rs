//! Verified core of a voxel diffusion simulation: grid indexing, the
//! fixed-point diffusion update, dispatch sizing, screen-space bounding
//! boxes, the camera's orbit radius and the per-frame buffer schedule.

pub mod bounding_box;
pub mod bridge;
pub mod conservation;
pub mod diffusion;
pub mod frame;
pub mod input;
pub mod orbit;
pub mod stencil;
pub mod traits;
pub mod uniforms;
pub mod voxel_grid;

