//! Verified integer core of a small software 3D renderer: render-mode state,
//! line rasterization, fixed-point coverage, clipping plans, mesh index
//! bookkeeping and colour packing.

pub mod buffer;
pub mod clip;
pub mod color;
pub mod edges;
pub mod fixed;
pub mod input;
pub mod line;
pub mod mesh;
pub mod modes;
pub mod raster;
pub mod renderer;
