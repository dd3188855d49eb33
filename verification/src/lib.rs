//! Rendering of triangle meshes into a grid of terminal cells.
//!
//! A frame goes from the meshes through a transform into view space, onto
//! the pixel grid, through a depth test into the context, and from there into
//! text: coloured for a terminal, or plain for an exported list of frames.
//!
//! All numbers are fixed-point integers with sixteen fractional bits, so that
//! every step from a mesh to the emitted text is exact and can be stated.
//! Numbers that come from outside as single-precision floats are taken as
//! their bit patterns and decoded here.

pub mod context;
pub mod fixed;
pub mod geometry;
pub mod inputs;
pub mod loader;
pub mod raster;
pub mod rasterizer;
pub mod session;
pub mod turntable;
