//! Streaming voxel terrain: chunk grids, the chunk store with its
//! level-of-detail states, and mesh extraction.
//!
//! Every length, colour channel and noise sample in this crate is a
//! fixed-point integer in thousandths of its unit.
pub mod voxel;
pub mod terrain;
pub mod worldgen;
pub mod mesh;
pub mod meshing;
pub mod space;
pub mod chunk;
pub mod chunk_loading;
pub mod systems;
