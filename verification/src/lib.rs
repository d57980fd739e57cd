//! Core of a chunked voxel world.
//!
//! The world is an unbounded horizontal grid of fixed-size chunks, each
//! holding a dense 3D grid of block types. This crate provides the block
//! catalog, the world-to-chunk coordinate transform, chunk storage with
//! neighbor-aware block queries, batch population and remeshing, and the
//! face-culling algorithm that turns a voxel grid into vertex and index
//! buffers. Rendering, windowing and worker threads live outside the
//! library and consume the values produced here.

pub mod block;
pub mod chunk;
pub mod coords;
pub mod mesh;
pub mod scheduler;
pub mod voxel;
pub mod world;
