//! A fixed 16x16x16 block container.
//!
//! A chunk owns a dense array of 4096 block values addressed by local
//! coordinates, x varying fastest, then y, then z. Beside the blocks it
//! keeps a per-cell occlusion mask cache (which faces of a cell are hidden
//! by its in-chunk neighbors) that is invalidated on every write and
//! rebuilt the next time a mask is read, plus a counter of edits.

use crate::block::BlockData;
use crate::block::FaceMask;
use crate::coords::local_in_bounds;
use crate::coords::Point;
use crate::errors::VoxelError;
use vstd::arithmetic::div_mod::lemma_mod_pos_bound;
use vstd::arithmetic::div_mod::lemma_multiply_divide_lt;
use vstd::prelude::*;

verus! {

/// Position of local coordinate `l` in a chunk's dense cell array.
pub open spec fn cell_index(l: Point) -> int
    recommends
        local_in_bounds(l),
{
    l.x + 16 * l.y + 256 * l.z
}

/// Position of local coordinate `l` in a chunk's dense cell array.
pub fn cell_index_of(l: Point) -> (i: usize)
    requires
        local_in_bounds(l),
    ensures
        i == cell_index(l),
        i < 4096,
{
    (l.x + 16 * l.y + 256 * l.z) as usize
}

/// The occlusion mask of cell `ci`: a face is set when the neighboring
/// cell on that side lies inside the chunk and its block occludes across
/// the shared face. Neighbors outside the chunk never set a face here;
/// cross-chunk occlusion is the world's concern.
pub open spec fn mask_spec<T: BlockData>(blocks: Seq<T>, ci: int) -> FaceMask
    recommends
        blocks.len() == 4096,
        0 <= ci < 4096,
{
    let x = ci % 16;
    let y = (ci / 16) % 16;
    let z = ci / 256;
    FaceMask {
        pos_x: x < 15 && blocks[(x + 1) + 16 * y + 256 * z].occlusion_spec().neg_x,
        neg_x: x > 0 && blocks[(x - 1) + 16 * y + 256 * z].occlusion_spec().pos_x,
        pos_y: y < 15 && blocks[x + 16 * (y + 1) + 256 * z].occlusion_spec().neg_y,
        neg_y: y > 0 && blocks[x + 16 * (y - 1) + 256 * z].occlusion_spec().pos_y,
        pos_z: z < 15 && blocks[x + 16 * y + 256 * (z + 1)].occlusion_spec().neg_z,
        neg_z: z > 0 && blocks[x + 16 * y + 256 * (z - 1)].occlusion_spec().pos_z,
    }
}

/// A 16x16x16 dense block container with an occlusion mask cache.
pub struct Chunk<T: BlockData> {
    blocks: Vec<T>,
    occlusion: Vec<FaceMask>,
    dirty: bool,
    edits: u64,
}

impl<T: BlockData> View for Chunk<T> {
    type V = Seq<T>;

    closed spec fn view(&self) -> Seq<T> {
        self.blocks@
    }
}

impl<T: BlockData> Chunk<T> {
    /// Shape and cache consistency: 4096 cells, and unless a write has
    /// marked the cache dirty, every cached mask matches the blocks.
    pub closed spec fn wf(self) -> bool {
        &&& self.blocks@.len() == 4096
        &&& self.occlusion@.len() == 4096
        &&& !self.dirty ==> forall|ci: int|
            0 <= ci < 4096 ==> self.occlusion@[ci] == mask_spec(self.blocks@, ci)
    }

    /// Number of block writes this chunk has seen.
    pub closed spec fn edits_spec(self) -> u64 {
        self.edits
    }

    /// A well-formed chunk always holds exactly 4096 cells.
    pub proof fn lemma_wf_len(self)
        requires
            self.wf(),
        ensures
            self@.len() == 4096,
    {
    }

    /// Number of block writes this chunk has seen.
    pub fn edit_count(&self) -> (n: u64)
        ensures
            n == self.edits_spec(),
    {
        self.edits
    }

    /// A chunk with every cell holding the block type's default value.
    pub fn new() -> (c: Self)
        ensures
            c.wf(),
            c@.len() == 4096,
            forall|ci: int| 0 <= ci < 4096 ==> c@[ci] == T::default_spec(),
            c.edits_spec() == 0,
    {
        let mut blocks: Vec<T> = Vec::new();
        let mut i: usize = 0;
        while i < 4096
            invariant
                blocks@.len() == i,
                i <= 4096,
                forall|k: int| 0 <= k < i ==> blocks@[k] == T::default_spec(),
            decreases 4096 - i,
        {
            blocks.push(T::default_value());
            i = i + 1;
        }
        Self::from_cells(blocks)
    }

    /// A chunk whose cells are `data`, in scan order (x fastest, then y,
    /// then z).
    pub fn from_cells(data: Vec<T>) -> (c: Self)
        requires
            data@.len() == 4096,
        ensures
            c.wf(),
            c@ == data@,
            c.edits_spec() == 0,
    {
        let mut occlusion: Vec<FaceMask> = Vec::new();
        let mut i: usize = 0;
        while i < 4096
            invariant
                occlusion@.len() == i,
                i <= 4096,
            decreases 4096 - i,
        {
            occlusion.push(FaceMask::none());
            i = i + 1;
        }
        Chunk { blocks: data, occlusion, dirty: true, edits: 0 }
    }

    /// The block at local coordinate `local`, or `OutOfBounds` when a
    /// component lies outside `[0, 16)`.
    pub fn get_block(&self, local: Point) -> (r: Result<T, VoxelError>)
        requires
            self.wf(),
        ensures
            match r {
                Ok(v) => local_in_bounds(local) && v == self@[cell_index(local)],
                Err(e) => !local_in_bounds(local) && e == VoxelError::OutOfBounds,
            },
    {
        if in_local_bounds(local) {
            Ok(self.blocks[cell_index_of(local)])
        } else {
            Err(VoxelError::OutOfBounds)
        }
    }

    /// Writes `value` at local coordinate `local`, marking the occlusion
    /// cache dirty and counting the edit; `OutOfBounds` leaves the chunk
    /// untouched.
    pub fn set_block(&mut self, local: Point, value: T) -> (r: Result<(), VoxelError>)
        requires
            old(self).wf(),
        ensures
            final(self).wf(),
            match r {
                Ok(()) => {
                    &&& local_in_bounds(local)
                    &&& final(self)@ == old(self)@.update(cell_index(local), value)
                    &&& final(self).edits_spec() == if old(self).edits_spec() == u64::MAX {
                        0u64
                    } else {
                        (old(self).edits_spec() + 1) as u64
                    }
                },
                Err(e) => {
                    &&& !local_in_bounds(local)
                    &&& e == VoxelError::OutOfBounds
                    &&& *final(self) == *old(self)
                },
            },
    {
        if in_local_bounds(local) {
            let ci = cell_index_of(local);
            self.blocks.set(ci, value);
            self.dirty = true;
            if self.edits == u64::MAX {
                self.edits = 0;
            } else {
                self.edits = self.edits + 1;
            }
            Ok(())
        } else {
            Err(VoxelError::OutOfBounds)
        }
    }

    /// The occlusion mask of the cell at `local`, rebuilt from the current
    /// blocks when the cache is stale. The blocks and the edit counter are
    /// left as they are.
    pub fn occlusion_at(&mut self, local: Point) -> (r: Result<FaceMask, VoxelError>)
        requires
            old(self).wf(),
        ensures
            final(self).wf(),
            final(self)@ == old(self)@,
            final(self).edits_spec() == old(self).edits_spec(),
            match r {
                Ok(m) => local_in_bounds(local) && m == mask_spec(old(self)@, cell_index(local)),
                Err(e) => !local_in_bounds(local) && e == VoxelError::OutOfBounds,
            },
    {
        if in_local_bounds(local) {
            if self.dirty {
                self.recompute_occlusion();
            }
            let ci = cell_index_of(local);
            Ok(self.occlusion[ci])
        } else {
            Err(VoxelError::OutOfBounds)
        }
    }

    /// Rebuilds every cached occlusion mask from the current blocks.
    fn recompute_occlusion(&mut self)
        requires
            old(self).blocks@.len() == 4096,
            old(self).occlusion@.len() == 4096,
        ensures
            final(self).blocks@ == old(self).blocks@,
            final(self).edits == old(self).edits,
            !final(self).dirty,
            final(self).occlusion@.len() == 4096,
            forall|ci: int|
                0 <= ci < 4096 ==> final(self).occlusion@[ci] == mask_spec(
                    final(self).blocks@,
                    ci,
                ),
    {
        let mut ci: usize = 0;
        while ci < 4096
            invariant
                self.blocks@ == old(self).blocks@,
                self.edits == old(self).edits,
                self.blocks@.len() == 4096,
                self.occlusion@.len() == 4096,
                ci <= 4096,
                forall|k: int| 0 <= k < ci ==> self.occlusion@[k] == mask_spec(self.blocks@, k),
            decreases 4096 - ci,
        {
            let m = self.compute_mask(ci);
            self.occlusion.set(ci, m);
            ci = ci + 1;
        }
        self.dirty = false;
    }

    /// The occlusion mask of cell `ci` read directly from the blocks.
    fn compute_mask(&self, ci: usize) -> (m: FaceMask)
        requires
            self.blocks@.len() == 4096,
            ci < 4096,
        ensures
            m == mask_spec(self.blocks@, ci as int),
    {
        proof {
            lemma_mod_pos_bound(ci as int, 16);
            lemma_mod_pos_bound(ci as int / 16, 16);
            lemma_multiply_divide_lt(ci as int, 256, 16);
        }
        let x = ci % 16;
        let y = (ci / 16) % 16;
        let z = ci / 256;
        FaceMask {
            pos_x: x < 15 && self.blocks[(x + 1) + 16 * y + 256 * z].occlusion().neg_x,
            neg_x: x > 0 && self.blocks[(x - 1) + 16 * y + 256 * z].occlusion().pos_x,
            pos_y: y < 15 && self.blocks[x + 16 * (y + 1) + 256 * z].occlusion().neg_y,
            neg_y: y > 0 && self.blocks[x + 16 * (y - 1) + 256 * z].occlusion().pos_y,
            pos_z: z < 15 && self.blocks[x + 16 * y + 256 * (z + 1)].occlusion().neg_z,
            neg_z: z > 0 && self.blocks[x + 16 * y + 256 * (z - 1)].occlusion().pos_z,
        }
    }
}

/// True when every component of `l` lies in the local range `[0, 16)`.
pub fn in_local_bounds(l: Point) -> (b: bool)
    ensures
        b == local_in_bounds(l),
{
    0 <= l.x && l.x < 16 && 0 <= l.y && l.y < 16 && 0 <= l.z && l.z < 16
}

} // verus!
