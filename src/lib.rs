//! A software rasterizer that renders triangle meshes into a grid of
//! terminal cells, with a depth buffer and a terminal byte encoding.
pub mod buffer;
pub mod config;
pub mod geometry;
pub mod mesh;
pub mod present;
pub mod raster;
pub mod shader;
