//! The voxel world: a sparse map from chunk coordinates to chunks.
//!
//! The world owns every resident chunk; a coordinate that is absent is
//! ungenerated, which is distinct from a chunk of default blocks. Loading
//! a chunk invokes the generator strategy once and emits a load event;
//! unloading drops the chunk and emits an unload event. Block reads and
//! writes never generate anything on their own.

use crate::block::BlockData;
use crate::chunk::cell_index;
use crate::chunk::Chunk;
use crate::coords::chunk_point;
use crate::coords::local_point;
use crate::coords::Point;
use crate::errors::VoxelError;
use crate::region::Region;
use crate::generator::WorldGenerator;
use vstd::prelude::*;

verus! {

/// Emitted once when a chunk becomes resident.
#[derive(Clone, Copy, PartialEq, Eq, Structural, Debug)]
pub struct ChunkLoadEvent {
    pub chunk: Point,
}

/// Emitted once when a resident chunk is dropped from the world.
#[derive(Clone, Copy, PartialEq, Eq, Structural, Debug)]
pub struct ChunkUnloadEvent {
    pub chunk: Point,
}

/// One resident chunk and the chunk coordinate that owns it.
struct WorldEntry<T: BlockData> {
    coord: Point,
    chunk: Chunk<T>,
}

/// A sparse, effectively infinite voxel grid: chunk coordinates mapped to
/// resident chunks, each coordinate at most once.
pub struct VoxelWorld<T: BlockData> {
    entries: Vec<WorldEntry<T>>,
    /// Ghost tally of how often the generator strategy has been invoked
    /// for each chunk coordinate.
    generations: Ghost<Map<Point, nat>>,
}

impl<T: BlockData> VoxelWorld<T> {
    /// Map consistency: no chunk coordinate appears twice, and every
    /// resident chunk is well formed.
    pub closed spec fn wf(self) -> bool {
        &&& forall|i: int, j: int|
            0 <= i < j < self.entries@.len() ==> self.entries@[i].coord != self.entries@[j].coord
        &&& forall|i: int| 0 <= i < self.entries@.len() ==> (#[trigger] self.entries@[i]).chunk.wf()
    }

    /// True when the chunk at coordinate `c` is resident.
    pub closed spec fn resident(self, c: Point) -> bool {
        exists|i: int| 0 <= i < self.entries@.len() && (#[trigger] self.entries@[i]).coord == c
    }

    /// Index of the entry holding coordinate `c`.
    spec fn entry_index(self, c: Point) -> int {
        choose|i: int| 0 <= i < self.entries@.len() && (#[trigger] self.entries@[i]).coord == c
    }

    /// The resident chunk at coordinate `c`.
    pub closed spec fn chunk_at(self, c: Point) -> Chunk<T>
        recommends
            self.resident(c),
    {
        self.entries@[self.entry_index(c)].chunk
    }

    /// The blocks of the resident chunk at coordinate `c`, in scan order.
    pub open spec fn chunk_data(self, c: Point) -> Seq<T>
        recommends
            self.resident(c),
    {
        self.chunk_at(c)@
    }

    /// How often the generator strategy has been invoked for chunk
    /// coordinate `c` over this world's lifetime.
    pub closed spec fn gen_count(self, c: Point) -> nat {
        if self.generations@.dom().contains(c) {
            self.generations@[c]
        } else {
            0
        }
    }

    /// The block stored at world coordinate `w`, or `None` when its chunk
    /// is not resident.
    pub open spec fn block_at(self, w: Point) -> Option<T> {
        if self.resident(chunk_point(w)) {
            Some(self.chunk_data(chunk_point(w))[cell_index(local_point(w))])
        } else {
            None
        }
    }

    /// An entry that holds `c` is the entry `entry_index` names.
    proof fn lemma_entry_index(self, i: int, c: Point)
        requires
            self.wf(),
            0 <= i < self.entries@.len(),
            self.entries@[i].coord == c,
        ensures
            self.resident(c),
            self.entry_index(c) == i,
            self.chunk_at(c) == self.entries@[i].chunk,
    {
        assert(self.resident(c));
        let j = self.entry_index(c);
        if i < j {
            assert(self.entries@[i].coord != self.entries@[j].coord);
        } else if j < i {
            assert(self.entries@[j].coord != self.entries@[i].coord);
        }
    }

    /// A world with no resident chunk and no generator invocation yet.
    pub fn new() -> (w: Self)
        ensures
            w.wf(),
            forall|c: Point| !w.resident(c),
            forall|c: Point| w.gen_count(c) == 0,
    {
        VoxelWorld { entries: Vec::new(), generations: Ghost(Map::empty()) }
    }

    /// Index of the entry holding coordinate `c`, if any.
    fn find_entry(&self, c: Point) -> (r: Option<usize>)
        requires
            self.wf(),
        ensures
            match r {
                Some(i) => {
                    &&& i < self.entries@.len()
                    &&& self.entries@[i as int].coord == c
                    &&& self.resident(c)
                    &&& self.entry_index(c) == i
                    &&& self.chunk_at(c) == self.entries@[i as int].chunk
                },
                None => !self.resident(c),
            },
    {
        let n = self.entries.len();
        let mut i: usize = 0;
        while i < n
            invariant
                self.wf(),
                n == self.entries@.len(),
                i <= n,
                forall|k: int| 0 <= k < i ==> (#[trigger] self.entries@[k]).coord != c,
            decreases n - i,
        {
            if self.entries[i].coord == c {
                proof {
                    self.lemma_entry_index(i as int, c);
                }
                return Some(i);
            }
            i = i + 1;
        }
        None
    }

    /// True when the chunk at coordinate `c` is resident.
    pub fn is_resident(&self, c: Point) -> (b: bool)
        requires
            self.wf(),
        ensures
            b == self.resident(c),
    {
        self.find_entry(c).is_some()
    }

    /// The resident chunk at coordinate `c`, if any.
    pub fn get_chunk(&self, c: Point) -> (r: Option<&Chunk<T>>)
        requires
            self.wf(),
        ensures
            match r {
                Some(ch) => self.resident(c) && *ch == self.chunk_at(c),
                None => !self.resident(c),
            },
    {
        match self.find_entry(c) {
            Some(i) => Some(&self.entries[i].chunk),
            None => None,
        }
    }

    /// Inserts `chunk` at coordinate `c`, replacing whatever chunk was
    /// resident there; no other chunk is touched and no event is emitted.
    pub fn set_chunk(&mut self, c: Point, chunk: Chunk<T>)
        requires
            old(self).wf(),
            chunk.wf(),
        ensures
            final(self).wf(),
            final(self).resident(c),
            final(self).chunk_at(c) == chunk,
            forall|c2: Point| final(self).gen_count(c2) == old(self).gen_count(c2),
            forall|c2: Point| c2 != c ==> final(self).resident(c2) == old(self).resident(c2),
            forall|c2: Point|
                c2 != c && old(self).resident(c2) ==> final(self).chunk_at(c2) == old(
                    self,
                ).chunk_at(c2),
    {
        match self.find_entry(c) {
            Some(i) => {
                let e = entry_mut(&mut self.entries, i);
                e.chunk = chunk;
                proof {
                    self.lemma_after_update(*old(self), i as int, c);
                }
            },
            None => {
                let ghost prev = *self;
                self.entries.push(WorldEntry { coord: c, chunk });
                proof {
                    self.lemma_after_push(prev, c);
                }
            },
        }
    }

    /// The block at world coordinate `w`, or `None` when its chunk is not
    /// resident. Never generates anything.
    pub fn get_block(&self, w: Point) -> (r: Option<T>)
        requires
            self.wf(),
        ensures
            r == self.block_at(w),
    {
        let c = w.chunk_coord();
        match self.find_entry(c) {
            Some(i) => {
                let l = w.local_coord();
                match self.entries[i].chunk.get_block(l) {
                    Ok(v) => Some(v),
                    Err(_) => {
                        proof {
                            assert(false);
                        }
                        None
                    },
                }
            },
            None => None,
        }
    }

    /// Writes `value` at world coordinate `w`; fails with
    /// `ChunkNotResident` (leaving the world as it was) when the owning
    /// chunk is absent. No other block and no other chunk changes.
    pub fn set_block(&mut self, w: Point, value: T) -> (r: Result<(), VoxelError>)
        requires
            old(self).wf(),
        ensures
            final(self).wf(),
            forall|c: Point| final(self).resident(c) == old(self).resident(c),
            forall|c: Point| final(self).gen_count(c) == old(self).gen_count(c),
            match r {
                Ok(()) => {
                    &&& old(self).resident(chunk_point(w))
                    &&& final(self).block_at(w) == Some(value)
                    &&& final(self).chunk_data(chunk_point(w)) == old(self).chunk_data(
                        chunk_point(w),
                    ).update(cell_index(local_point(w)), value)
                    &&& forall|c: Point|
                        c != chunk_point(w) && old(self).resident(c) ==> final(self).chunk_at(c)
                            == old(self).chunk_at(c)
                    &&& forall|w2: Point| w2 != w ==> final(self).block_at(w2) == old(
                        self,
                    ).block_at(w2)
                },
                Err(e) => {
                    &&& e == VoxelError::ChunkNotResident
                    &&& !old(self).resident(chunk_point(w))
                    &&& *final(self) == *old(self)
                },
            },
    {
        let c = w.chunk_coord();
        match self.find_entry(c) {
            Some(i) => {
                let l = w.local_coord();
                let e = entry_mut(&mut self.entries, i);
                let res = e.chunk.set_block(l, value);
                proof {
                    assert(res is Ok);
                    self.lemma_after_update(*old(self), i as int, c);
                    old(self).chunk_at(c).lemma_wf_len();
                    lemma_block_frame(*old(self), *self, w, value);
                }
                Ok(())
            },
            None => Err(VoxelError::ChunkNotResident),
        }
    }

    /// After replacing the chunk of entry `i` (same coordinate, still well
    /// formed), residency is unchanged and every other chunk is as it was.
    proof fn lemma_after_update(self, prev: Self, i: int, c: Point)
        requires
            prev.wf(),
            0 <= i < prev.entries@.len(),
            prev.entries@[i].coord == c,
            self.entries@.len() == prev.entries@.len(),
            self.entries@[i].coord == c,
            self.entries@[i].chunk.wf(),
            forall|k: int| 0 <= k < prev.entries@.len() && k != i ==> self.entries@[k] == prev.entries@[k],
        ensures
            self.wf(),
            forall|c2: Point| self.resident(c2) == prev.resident(c2),
            self.resident(c),
            self.chunk_at(c) == self.entries@[i].chunk,
            forall|c2: Point|
                c2 != c && prev.resident(c2) ==> self.chunk_at(c2) == prev.chunk_at(c2),
    {
        assert forall|a: int, b: int| 0 <= a < b < self.entries@.len() implies self.entries@[a].coord
            != self.entries@[b].coord by {
            assert(prev.entries@[a].coord != prev.entries@[b].coord);
        }
        assert forall|k: int| 0 <= k < self.entries@.len() implies (#[trigger] self.entries@[k]).chunk.wf() by {
            if k != i {
                assert(self.entries@[k] == prev.entries@[k]);
            }
        }
        assert forall|c2: Point| self.resident(c2) == prev.resident(c2) by {
            if self.resident(c2) {
                let k = choose|k: int|
                    0 <= k < self.entries@.len() && (#[trigger] self.entries@[k]).coord == c2;
                assert(prev.entries@[k].coord == c2);
            }
            if prev.resident(c2) {
                let k = choose|k: int|
                    0 <= k < prev.entries@.len() && (#[trigger] prev.entries@[k]).coord == c2;
                assert(self.entries@[k].coord == c2);
            }
        }
        self.lemma_entry_index(i, c);
        assert forall|c2: Point|
            c2 != c && prev.resident(c2) implies self.chunk_at(c2) == prev.chunk_at(c2) by {
            let k = choose|k: int|
                0 <= k < prev.entries@.len() && (#[trigger] prev.entries@[k]).coord == c2;
            prev.lemma_entry_index(k, c2);
            assert(self.entries@[k].coord == c2);
            self.lemma_entry_index(k, c2);
        }
    }

    /// Makes the chunk at `c` resident: a no-op when it already is, else
    /// one synchronous generator invocation, insertion of the produced
    /// blocks, and one load event.
    pub fn load_chunk<G: WorldGenerator<T>>(&mut self, c: Point, generator: &G) -> (ev: Option<
        ChunkLoadEvent,
    >)
        requires
            old(self).wf(),
        ensures
            final(self).wf(),
            final(self).resident(c),
            forall|c2: Point| c2 != c ==> final(self).resident(c2) == old(self).resident(c2),
            forall|c2: Point|
                c2 != c && old(self).resident(c2) ==> final(self).chunk_at(c2) == old(
                    self,
                ).chunk_at(c2),
            old(self).resident(c) ==> ev is None && *final(self) == *old(self),
            !old(self).resident(c) ==> {
                &&& ev == Some(ChunkLoadEvent { chunk: c })
                &&& final(self).chunk_data(c) == generator.generate_spec(c)
                &&& final(self).chunk_at(c).edits_spec() == 0
                &&& final(self).gen_count(c) == old(self).gen_count(c) + 1
            },
            forall|c2: Point| c2 != c ==> final(self).gen_count(c2) == old(self).gen_count(c2),
    {
        match self.find_entry(c) {
            Some(_) => None,
            None => {
                let data = generator.generate_chunk(c);
                let chunk = Chunk::from_cells(data);
                let ghost prev = *self;
                let ghost invoked = self.gen_count(c) + 1;
                self.entries.push(WorldEntry { coord: c, chunk });
                self.generations = Ghost(self.generations@.insert(c, invoked));
                proof {
                    self.lemma_after_push(prev, c);
                }
                Some(ChunkLoadEvent { chunk: c })
            },
        }
    }

    /// After pushing an entry for a coordinate that was absent, the world
    /// is consistent, the coordinate is resident, and nothing else moved.
    proof fn lemma_after_push(self, prev: Self, c: Point)
        requires
            prev.wf(),
            !prev.resident(c),
            self.entries@.len() == prev.entries@.len() + 1,
            self.entries@[prev.entries@.len() as int].coord == c,
            self.entries@[prev.entries@.len() as int].chunk.wf(),
            forall|k: int| 0 <= k < prev.entries@.len() ==> self.entries@[k] == prev.entries@[k],
        ensures
            self.wf(),
            self.resident(c),
            self.chunk_at(c) == self.entries@[prev.entries@.len() as int].chunk,
            forall|c2: Point| c2 != c ==> self.resident(c2) == prev.resident(c2),
            forall|c2: Point|
                c2 != c && prev.resident(c2) ==> self.chunk_at(c2) == prev.chunk_at(c2),
    {
        let n = prev.entries@.len() as int;
        assert forall|a: int, b: int| 0 <= a < b < self.entries@.len() implies self.entries@[a].coord
            != self.entries@[b].coord by {
            if b < n {
                assert(prev.entries@[a].coord != prev.entries@[b].coord);
            } else {
                assert(self.entries@[a] == prev.entries@[a]);
                if self.entries@[a].coord == c {
                    assert(prev.resident(c));
                }
            }
        }
        assert forall|k: int| 0 <= k < self.entries@.len() implies (#[trigger] self.entries@[k]).chunk.wf() by {
            if k < n {
                assert(self.entries@[k] == prev.entries@[k]);
            }
        }
        self.lemma_entry_index(n, c);
        assert forall|c2: Point| c2 != c implies self.resident(c2) == prev.resident(c2) by {
            if self.resident(c2) {
                let k = choose|k: int|
                    0 <= k < self.entries@.len() && (#[trigger] self.entries@[k]).coord == c2;
                assert(k < n);
                assert(prev.entries@[k].coord == c2);
            }
            if prev.resident(c2) {
                let k = choose|k: int|
                    0 <= k < prev.entries@.len() && (#[trigger] prev.entries@[k]).coord == c2;
                assert(self.entries@[k].coord == c2);
            }
        }
        assert forall|c2: Point|
            c2 != c && prev.resident(c2) implies self.chunk_at(c2) == prev.chunk_at(c2) by {
            let k = choose|k: int|
                0 <= k < prev.entries@.len() && (#[trigger] prev.entries@[k]).coord == c2;
            prev.lemma_entry_index(k, c2);
            assert(self.entries@[k].coord == c2);
            self.lemma_entry_index(k, c2);
        }
    }

    /// Drops the chunk at `c` and emits one unload event; a no-op when the
    /// coordinate is not resident.
    pub fn unload_chunk(&mut self, c: Point) -> (ev: Option<ChunkUnloadEvent>)
        requires
            old(self).wf(),
        ensures
            final(self).wf(),
            !final(self).resident(c),
            forall|c2: Point| final(self).gen_count(c2) == old(self).gen_count(c2),
            forall|c2: Point| c2 != c ==> final(self).resident(c2) == old(self).resident(c2),
            forall|c2: Point|
                c2 != c && old(self).resident(c2) ==> final(self).chunk_at(c2) == old(
                    self,
                ).chunk_at(c2),
            old(self).resident(c) ==> ev == Some(ChunkUnloadEvent { chunk: c }),
            !old(self).resident(c) ==> ev is None && *final(self) == *old(self),
    {
        match self.find_entry(c) {
            Some(i) => {
                let ghost prev = *self;
                self.entries.remove(i);
                proof {
                    self.lemma_after_remove(prev, i as int, c);
                }
                Some(ChunkUnloadEvent { chunk: c })
            },
            None => None,
        }
    }

    /// After removing the entry of `c`, the world is consistent, `c` is
    /// absent, and every other coordinate kept its chunk.
    proof fn lemma_after_remove(self, prev: Self, i: int, c: Point)
        requires
            prev.wf(),
            0 <= i < prev.entries@.len(),
            prev.entries@[i].coord == c,
            self.entries@ == prev.entries@.remove(i),
        ensures
            self.wf(),
            !self.resident(c),
            forall|c2: Point| c2 != c ==> self.resident(c2) == prev.resident(c2),
            forall|c2: Point|
                c2 != c && prev.resident(c2) ==> self.chunk_at(c2) == prev.chunk_at(c2),
    {
        let n = prev.entries@.len() as int;
        assert(self.entries@.len() == n - 1);
        assert forall|k: int| 0 <= k < n - 1 implies self.entries@[k] == (if k < i {
            prev.entries@[k]
        } else {
            prev.entries@[k + 1]
        }) by {}
        assert forall|a: int, b: int| 0 <= a < b < self.entries@.len() implies self.entries@[a].coord
            != self.entries@[b].coord by {}
        assert forall|k: int| 0 <= k < self.entries@.len() implies (#[trigger] self.entries@[k]).chunk.wf() by {}
        if self.resident(c) {
            let k = choose|k: int|
                0 <= k < self.entries@.len() && (#[trigger] self.entries@[k]).coord == c;
            if k < i {
                prev.lemma_entry_index(k, c);
                prev.lemma_entry_index(i, c);
            } else {
                prev.lemma_entry_index(k + 1, c);
                prev.lemma_entry_index(i, c);
            }
        }
        assert forall|c2: Point| c2 != c implies self.resident(c2) == prev.resident(c2) by {
            if self.resident(c2) {
                let k = choose|k: int|
                    0 <= k < self.entries@.len() && (#[trigger] self.entries@[k]).coord == c2;
                if k < i {
                    assert(prev.entries@[k].coord == c2);
                } else {
                    assert(prev.entries@[k + 1].coord == c2);
                }
            }
            if prev.resident(c2) {
                let k = choose|k: int|
                    0 <= k < prev.entries@.len() && (#[trigger] prev.entries@[k]).coord == c2;
                if k < i {
                    assert(self.entries@[k].coord == c2);
                } else {
                    assert(k != i);
                    assert(self.entries@[k - 1].coord == c2);
                }
            }
        }
        assert forall|c2: Point|
            c2 != c && prev.resident(c2) implies self.chunk_at(c2) == prev.chunk_at(c2) by {
            let k = choose|k: int|
                0 <= k < prev.entries@.len() && (#[trigger] prev.entries@[k]).coord == c2;
            prev.lemma_entry_index(k, c2);
            if k < i {
                assert(self.entries@[k].coord == c2);
                self.lemma_entry_index(k, c2);
            } else {
                assert(k != i);
                assert(self.entries@[k - 1].coord == c2);
                self.lemma_entry_index(k - 1, c2);
            }
        }
    }
}

/// Reading back a freshly loaded chunk: every world coordinate the
/// chunk owns yields exactly the value stored at its cell, so a chunk
/// loaded from a generator reads back the generator's data everywhere.
pub proof fn lemma_loaded_chunk_blocks<T: BlockData>(w: VoxelWorld<T>, c: Point, p: Point)
    requires
        w.resident(c),
        chunk_point(p) == c,
    ensures
        w.block_at(p) == Some(w.chunk_data(c)[cell_index(local_point(p))]),
{
}

/// Two distinct world coordinates never share both a chunk and a cell.
pub proof fn lemma_world_cell_injective(w1: Point, w2: Point)
    requires
        chunk_point(w1) == chunk_point(w2),
        cell_index(local_point(w1)) == cell_index(local_point(w2)),
    ensures
        w1 == w2,
{
    crate::coords::lemma_point_round_trip(w1);
    crate::coords::lemma_point_round_trip(w2);
    let l1 = local_point(w1);
    let l2 = local_point(w2);
    assert(l1.x + 16 * l1.y + 256 * l1.z == l2.x + 16 * l2.y + 256 * l2.z);
    assert(l1 == l2);
}

/// A single-block write moves no other block of the world.
proof fn lemma_block_frame<T: BlockData>(prev: VoxelWorld<T>, cur: VoxelWorld<T>, w: Point, value: T)
    requires
        forall|c: Point| cur.resident(c) == prev.resident(c),
        prev.resident(chunk_point(w)),
        cur.chunk_data(chunk_point(w)) == prev.chunk_data(chunk_point(w)).update(
            cell_index(local_point(w)),
            value,
        ),
        forall|c: Point|
            c != chunk_point(w) && prev.resident(c) ==> cur.chunk_at(c) == prev.chunk_at(c),
        prev.chunk_data(chunk_point(w)).len() == 4096,
    ensures
        cur.block_at(w) == Some(value),
        forall|w2: Point| w2 != w ==> cur.block_at(w2) == prev.block_at(w2),
{
    crate::coords::lemma_point_round_trip(w);
    assert(0 <= cell_index(local_point(w)) < 4096);
    assert forall|w2: Point| w2 != w implies cur.block_at(w2) == prev.block_at(w2) by {
        let c2 = chunk_point(w2);
        if c2 == chunk_point(w) {
            if prev.resident(c2) {
                crate::coords::lemma_point_round_trip(w2);
                if cell_index(local_point(w2)) == cell_index(local_point(w)) {
                    lemma_world_cell_injective(w, w2);
                    assert(false);
                }
            }
        }
    }
}

/// A dense copy of the blocks of a region, in scan order (x fastest,
/// then y, then z): the read/write view the world exchanges with its
/// callers, possibly spanning several chunks.
pub struct DataSlice<T: BlockData> {
    pub region: Region,
    pub data: Vec<T>,
}

impl<T: BlockData> DataSlice<T> {
    /// One value per coordinate of the region.
    pub open spec fn wf(self) -> bool {
        self.data@.len() == self.region.volume()
    }
}

impl<T: BlockData> VoxelWorld<T> {
    /// Copies the blocks of `region` out of the world, in scan order;
    /// fails with `ChunkNotResident`, touching nothing, when any chunk
    /// the region overlaps is absent. An empty region yields an empty
    /// slice.
    pub fn get_slice(&self, region: Region) -> (r: Result<DataSlice<T>, VoxelError>)
        requires
            self.wf(),
            region.volume() <= usize::MAX,
        ensures
            match r {
                Ok(s) => {
                    &&& s.region == region
                    &&& s.wf()
                    &&& forall|i: int|
                        0 <= i < region.volume() ==> Some(s.data@[i]) == self.block_at(
                            #[trigger] region.coord_at(i),
                        )
                    &&& forall|p: Point|
                        #[trigger] region.contains_spec(p) ==> self.block_at(p) is Some
                },
                Err(e) => {
                    &&& e == VoxelError::ChunkNotResident
                    &&& exists|p: Point|
                        #[trigger] region.contains_spec(p) && self.block_at(p) is None
                },
            },
    {
        let pts = region.points();
        let n = pts.len();
        let mut data: Vec<T> = Vec::new();
        let mut j: usize = 0;
        while j < n
            invariant
                self.wf(),
                region.volume() <= usize::MAX,
                n == pts@.len(),
                j <= n,
                pts@.len() == region.volume(),
                forall|k: int| 0 <= k < pts@.len() ==> pts@[k] == region.coord_at(k),
                data@.len() == j,
                forall|k: int|
                    0 <= k < j ==> Some(data@[k]) == self.block_at(#[trigger] region.coord_at(k)),
            decreases n - j,
        {
            let p = pts[j];
            match self.get_block(p) {
                Some(v) => data.push(v),
                None => {
                    proof {
                        region.lemma_coord_at_in_region(j as int);
                        assert(region.contains_spec(p) && self.block_at(p) is None);
                    }
                    return Err(VoxelError::ChunkNotResident);
                },
            }
            j = j + 1;
        }
        proof {
            assert forall|p: Point| #[trigger] region.contains_spec(p) implies self.block_at(
                p,
            ) is Some by {
                region.lemma_index_of_in_scan(p);
                assert(Some(data@[region.index_of(p)]) == self.block_at(
                    region.coord_at(region.index_of(p)),
                ));
            }
        }
        Ok(DataSlice { region, data })
    }

    /// Writes a slice back into the world, all or nothing: when any
    /// chunk the slice's region overlaps is absent, the world is left
    /// exactly as it was and `ChunkNotResident` is returned; otherwise
    /// every coordinate of the region takes its value from the slice and
    /// no other block changes. An empty region is a valid no-op.
    pub fn set_slice(&mut self, slice: &DataSlice<T>) -> (r: Result<(), VoxelError>)
        requires
            old(self).wf(),
            slice.wf(),
            slice.region.volume() <= usize::MAX,
        ensures
            final(self).wf(),
            forall|c: Point| final(self).resident(c) == old(self).resident(c),
            forall|c: Point| final(self).gen_count(c) == old(self).gen_count(c),
            match r {
                Ok(()) => {
                    &&& forall|i: int|
                        0 <= i < slice.region.volume() ==> final(self).block_at(
                            #[trigger] slice.region.coord_at(i),
                        ) == Some(slice.data@[i])
                    &&& forall|p: Point|
                        !slice.region.contains_spec(p) ==> final(self).block_at(p) == old(
                            self,
                        ).block_at(p)
                },
                Err(e) => {
                    &&& e == VoxelError::ChunkNotResident
                    &&& *final(self) == *old(self)
                    &&& exists|p: Point|
                        #[trigger] slice.region.contains_spec(p) && old(self).block_at(p) is None
                },
            },
    {
        let region = slice.region;
        let pts = region.points();
        let n = pts.len();
        // all-or-nothing: refuse before touching anything
        let mut j: usize = 0;
        while j < n
            invariant
                self.wf(),
                *self == *old(self),
                n == pts@.len(),
                j <= n,
                pts@.len() == region.volume(),
                region == slice.region,
                forall|k: int| 0 <= k < pts@.len() ==> pts@[k] == region.coord_at(k),
                forall|k: int|
                    0 <= k < j ==> self.block_at(#[trigger] region.coord_at(k)) is Some,
            decreases n - j,
        {
            let p = pts[j];
            if self.get_block(p).is_none() {
                proof {
                    region.lemma_coord_at_in_region(j as int);
                    assert(region.contains_spec(p) && old(self).block_at(p) is None);
                }
                return Err(VoxelError::ChunkNotResident);
            }
            j = j + 1;
        }
        // every chunk is resident: write all values
        let mut k: usize = 0;
        while k < n
            invariant
                self.wf(),
                slice.wf(),
                n == pts@.len(),
                k <= n,
                pts@.len() == region.volume(),
                region == slice.region,
                forall|m: int| 0 <= m < pts@.len() ==> pts@[m] == region.coord_at(m),
                forall|c: Point| self.resident(c) == old(self).resident(c),
                forall|c: Point| self.gen_count(c) == old(self).gen_count(c),
                forall|m: int|
                    0 <= m < pts@.len() ==> old(self).block_at(#[trigger] region.coord_at(m)) is Some,
                forall|m: int|
                    0 <= m < k ==> self.block_at(#[trigger] region.coord_at(m)) == Some(
                        slice.data@[m],
                    ),
                forall|m: int|
                    k <= m < pts@.len() ==> self.block_at(#[trigger] region.coord_at(m)) == old(
                        self,
                    ).block_at(region.coord_at(m)),
                forall|p: Point|
                    !region.contains_spec(p) ==> self.block_at(p) == old(self).block_at(p),
            decreases n - k,
        {
            let p = pts[k];
            proof {
                region.lemma_coord_at_in_region(k as int);
                crate::coords::lemma_point_round_trip(p);
                assert(old(self).block_at(p) is Some);
                assert(self.block_at(p) == old(self).block_at(p));
                assert(self.resident(chunk_point(p)));
            }
            let res = self.set_block(p, slice.data[k]);
            proof {
                assert(res is Ok);
                assert forall|m: int|
                    0 <= m < k + 1 implies self.block_at(#[trigger] region.coord_at(m)) == Some(
                    slice.data@[m],
                ) by {
                    if m < k {
                        region.lemma_coord_at_in_region(m);
                        region.lemma_scan_unique(m, k as int);
                    }
                }
                assert forall|m: int|
                    k + 1 <= m < pts@.len() implies self.block_at(#[trigger] region.coord_at(m))
                        == old(self).block_at(region.coord_at(m)) by {
                    region.lemma_coord_at_in_region(m);
                    region.lemma_scan_unique(k as int, m);
                }
                assert forall|p2: Point|
                    !region.contains_spec(p2) implies self.block_at(p2) == old(self).block_at(
                    p2,
                ) by {
                    assert(p2 != p);
                }
            }
            k = k + 1;
        }
        Ok(())
    }
}

/// A mutable borrow of one entry of the backing vector.
fn entry_mut<T: BlockData>(v: &mut Vec<WorldEntry<T>>, i: usize) -> (e: &mut WorldEntry<T>)
    requires
        i < old(v)@.len(),
    ensures
        *e == old(v)@[i as int],
        final(v)@ == old(v)@.update(i as int, *final(e)),
{
    &mut v[i]
}

} // verus!
