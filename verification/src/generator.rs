//! The world generator strategy.
//!
//! A generator produces the initial blocks of one chunk from its chunk
//! coordinate alone, deterministically: the value-level spec function
//! fixes the content, and the exec method must return exactly that. The
//! world invokes a generator at most once per coordinate while the chunk
//! stays resident; a generator never fails, it returns default data where
//! it has nothing to say.

use crate::block::BasicBlock;
use crate::block::BlockData;
use crate::coords::Point;
use vstd::prelude::*;

verus! {

/// Strategy producing the initial blocks of a chunk, in scan order
/// (x fastest, then y, then z), 4096 values per chunk.
pub trait WorldGenerator<T: BlockData> {
    /// The blocks this generator assigns to chunk `chunk_coord`.
    spec fn generate_spec(&self, chunk_coord: Point) -> Seq<T>;

    /// Produces the blocks of chunk `chunk_coord`: exactly the data the
    /// spec names, one value per cell.
    fn generate_chunk(&self, chunk_coord: Point) -> (data: Vec<T>)
        ensures
            data@ == self.generate_spec(chunk_coord),
            data@.len() == 4096,
    ;
}

/// Fills every cell of every chunk with one fixed value.
pub struct UniformGenerator<T: BlockData> {
    pub value: T,
}

impl<T: BlockData> WorldGenerator<T> for UniformGenerator<T> {
    open spec fn generate_spec(&self, chunk_coord: Point) -> Seq<T> {
        Seq::new(4096, |ci: int| self.value)
    }

    fn generate_chunk(&self, chunk_coord: Point) -> (data: Vec<T>) {
        let mut data: Vec<T> = Vec::new();
        let mut i: usize = 0;
        while i < 4096
            invariant
                data@.len() == i,
                i <= 4096,
                forall|k: int| 0 <= k < i ==> data@[k] == self.value,
            decreases 4096 - i,
        {
            data.push(self.value);
            i = i + 1;
        }
        proof {
            assert(data@ =~= self.generate_spec(chunk_coord));
        }
        data
    }
}

/// Fills every block below world height zero with solid ground and leaves
/// everything at or above it empty.
pub struct FloorGenerator {
}

impl FloorGenerator {
    /// The block this generator places at local height `y` (scan cell
    /// `ci`) of chunk `chunk_coord`.
    pub open spec fn block_spec(chunk_coord: Point, ci: int) -> BasicBlock {
        if 16 * chunk_coord.y + (ci / 16) % 16 < 0 {
            BasicBlock::Solid
        } else {
            BasicBlock::Empty
        }
    }
}

impl WorldGenerator<BasicBlock> for FloorGenerator {
    open spec fn generate_spec(&self, chunk_coord: Point) -> Seq<BasicBlock> {
        Seq::new(4096, |ci: int| FloorGenerator::block_spec(chunk_coord, ci))
    }

    fn generate_chunk(&self, chunk_coord: Point) -> (data: Vec<BasicBlock>) {
        let mut data: Vec<BasicBlock> = Vec::new();
        let mut i: usize = 0;
        while i < 4096
            invariant
                data@.len() == i,
                i <= 4096,
                forall|k: int|
                    0 <= k < i ==> data@[k] == FloorGenerator::block_spec(chunk_coord, k),
            decreases 4096 - i,
        {
            let local_y: usize = (i / 16) % 16;
            let world_y: i64 = 16 * (chunk_coord.y as i64) + local_y as i64;
            if world_y < 0 {
                data.push(BasicBlock::Solid);
            } else {
                data.push(BasicBlock::Empty);
            }
            i = i + 1;
        }
        proof {
            assert(data@ =~= self.generate_spec(chunk_coord));
        }
        data
    }
}

} // verus!
