//! Host-integration entry point.
//!
//! A host application wires the voxel core up once per stored block data
//! type: it owns a world, an offset-table arena and a set of anchors, and
//! drives one scheduling pass per update cycle, handing the emitted load
//! and unload events to its rendering side. This marker type carries that
//! configuration: the block data type `T`, and the maximum anchor radius
//! `R` that bounds the offset-table arena (anchors with a larger radius
//! are truncated to `R`, which is documented behavior, not an error).

use crate::block::BlockData;
use core::marker::PhantomData;
use vstd::prelude::*;

verus! {

/// Root configuration marker of the voxel world core for one block data
/// type, with `R` the maximum anchor radius honored by the scheduler.
#[derive(Debug, Default)]
pub struct Bones3Plugin<const R: u8, T: BlockData> {
    /// Phantom data for `T`.
    _phantom: PhantomData<T>,
}

impl<const R: u8, T: BlockData> Bones3Plugin<R, T> {
    /// A fresh configuration marker.
    pub fn new() -> Self {
        Bones3Plugin { _phantom: PhantomData }
    }

    /// The maximum anchor radius this configuration honors.
    pub fn max_radius(&self) -> (r: u8)
        ensures
            r == R,
    {
        R
    }
}

} // verus!
