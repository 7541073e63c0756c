//! Errors surfaced by the voxel storage core.
//!
//! Two further conditions of the design are deliberately not errors here:
//! an empty region is a valid degenerate input that simply yields an empty
//! result, and a stale generation cannot arise because this core runs
//! generation and meshing synchronously against the resident world.

use vstd::prelude::*;

verus! {

/// Why a storage operation was refused.
#[derive(Clone, Copy, PartialEq, Eq, Structural, Debug)]
pub enum VoxelError {
    /// A local coordinate lies outside the chunk range `[0, 16)`.
    OutOfBounds,
    /// The chunk owning the addressed coordinate is not resident.
    ChunkNotResident,
}

} // verus!
