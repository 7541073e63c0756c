//! Chunked voxel world storage and streaming.
//!
//! An effectively infinite voxel grid is partitioned into fixed 16x16x16
//! chunks. Chunks are generated lazily, held in a sparse world map, kept
//! resident while at least one chunk anchor claims them, and turned into
//! renderable geometry by an occlusion-culling mesh pass.

pub mod anchor;
pub mod block;
pub mod chunk;
pub mod coords;
pub mod errors;
pub mod generator;
pub mod mesh;
pub mod plugin;
pub mod region;
pub mod world;
