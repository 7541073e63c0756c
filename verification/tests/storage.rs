use bones3::block::BasicBlock;
use bones3::chunk::Chunk;
use bones3::coords::Point;
use bones3::errors::VoxelError;
use bones3::generator::FloorGenerator;
use bones3::generator::UniformGenerator;
use bones3::region::Region;
use bones3::world::DataSlice;
use bones3::world::VoxelWorld;

#[test]
fn fresh_chunk_is_filled_with_defaults() {
    let chunk: Chunk<BasicBlock> = Chunk::new();
    assert_eq!(chunk.edit_count(), 0);
    assert_eq!(chunk.get_block(Point::new(0, 0, 0)), Ok(BasicBlock::Empty));
    assert_eq!(chunk.get_block(Point::new(15, 15, 15)), Ok(BasicBlock::Empty));
}

#[test]
fn chunk_set_and_get_block() {
    let mut chunk: Chunk<BasicBlock> = Chunk::new();
    assert_eq!(chunk.set_block(Point::new(3, 4, 5), BasicBlock::Solid), Ok(()));
    assert_eq!(chunk.get_block(Point::new(3, 4, 5)), Ok(BasicBlock::Solid));
    assert_eq!(chunk.get_block(Point::new(5, 4, 3)), Ok(BasicBlock::Empty));
    assert_eq!(chunk.edit_count(), 1);
}

#[test]
fn chunk_rejects_out_of_bounds_coordinates() {
    let mut chunk: Chunk<BasicBlock> = Chunk::new();
    assert_eq!(chunk.get_block(Point::new(16, 0, 0)), Err(VoxelError::OutOfBounds));
    assert_eq!(chunk.get_block(Point::new(0, -1, 0)), Err(VoxelError::OutOfBounds));
    assert_eq!(
        chunk.set_block(Point::new(0, 0, 16), BasicBlock::Solid),
        Err(VoxelError::OutOfBounds)
    );
    assert_eq!(chunk.edit_count(), 0);
}

#[test]
fn chunk_occlusion_follows_neighbors() {
    let mut chunk: Chunk<BasicBlock> = Chunk::new();
    let empty_mask = chunk.occlusion_at(Point::new(1, 1, 1)).unwrap();
    assert!(!empty_mask.pos_x && !empty_mask.neg_x);
    assert!(!empty_mask.pos_y && !empty_mask.neg_y);
    assert!(!empty_mask.pos_z && !empty_mask.neg_z);

    chunk.set_block(Point::new(1, 1, 1), BasicBlock::Solid).unwrap();
    // the solid block hides the +x face of its -x neighbor
    let left = chunk.occlusion_at(Point::new(0, 1, 1)).unwrap();
    assert!(left.pos_x);
    assert!(!left.neg_x && !left.pos_y && !left.neg_y && !left.pos_z && !left.neg_z);
    let above = chunk.occlusion_at(Point::new(1, 2, 1)).unwrap();
    assert!(above.neg_y);
    // the solid block itself has only empty neighbors
    let own = chunk.occlusion_at(Point::new(1, 1, 1)).unwrap();
    assert!(!own.pos_x && !own.neg_x && !own.pos_y && !own.neg_y && !own.pos_z && !own.neg_z);
}

#[test]
fn get_block_on_never_loaded_chunk_returns_none() {
    let world: VoxelWorld<BasicBlock> = VoxelWorld::new();
    assert_eq!(world.get_block(Point::new(0, 0, 0)), None);
    assert_eq!(world.get_block(Point::new(-100, 5000, 3)), None);
}

#[test]
fn set_block_on_absent_chunk_fails() {
    let mut world: VoxelWorld<BasicBlock> = VoxelWorld::new();
    assert_eq!(
        world.set_block(Point::new(1, 2, 3), BasicBlock::Solid),
        Err(VoxelError::ChunkNotResident)
    );
}

#[test]
fn load_chunk_makes_generator_data_readable() {
    let mut world: VoxelWorld<BasicBlock> = VoxelWorld::new();
    let generator = FloorGenerator {};
    let ev = world.load_chunk(Point::new(0, -1, 0), &generator);
    assert!(ev.is_some());
    assert_eq!(ev.unwrap().chunk, Point::new(0, -1, 0));
    // every coordinate of the loaded chunk reads the generator's value
    for x in 0..16 {
        for y in -16..0 {
            for z in 0..16 {
                assert_eq!(world.get_block(Point::new(x, y, z)), Some(BasicBlock::Solid));
            }
        }
    }
}

#[test]
fn load_chunk_twice_is_a_no_op_with_one_event() {
    let mut world: VoxelWorld<BasicBlock> = VoxelWorld::new();
    let generator = UniformGenerator { value: BasicBlock::Solid };
    let first = world.load_chunk(Point::new(2, 3, 4), &generator);
    assert!(first.is_some());
    let second = world.load_chunk(Point::new(2, 3, 4), &generator);
    assert!(second.is_none());
    assert!(world.is_resident(Point::new(2, 3, 4)));
}

#[test]
fn unload_chunk_drops_and_reports_once() {
    let mut world: VoxelWorld<BasicBlock> = VoxelWorld::new();
    let generator = UniformGenerator { value: BasicBlock::Solid };
    world.load_chunk(Point::new(1, 1, 1), &generator);
    let ev = world.unload_chunk(Point::new(1, 1, 1));
    assert!(ev.is_some());
    assert_eq!(ev.unwrap().chunk, Point::new(1, 1, 1));
    assert!(!world.is_resident(Point::new(1, 1, 1)));
    assert_eq!(world.get_block(Point::new(16 + 1, 16 + 1, 16 + 1)), None);
    assert!(world.unload_chunk(Point::new(1, 1, 1)).is_none());
}

#[test]
fn slices_round_trip_across_chunks() {
    let mut world: VoxelWorld<BasicBlock> = VoxelWorld::new();
    let generator = UniformGenerator { value: BasicBlock::Empty };
    world.load_chunk(Point::new(0, 0, 0), &generator);
    world.load_chunk(Point::new(1, 0, 0), &generator);
    // a region spanning both chunks
    let region = Region::new(Point::new(14, 0, 0), Point::new(17, 0, 0));
    let data = vec![
        BasicBlock::Solid,
        BasicBlock::Empty,
        BasicBlock::Solid,
        BasicBlock::Solid,
    ];
    let slice = DataSlice { region, data: data.clone() };
    assert_eq!(world.set_slice(&slice), Ok(()));
    let back = world.get_slice(region).unwrap();
    assert_eq!(back.data, data);
    assert_eq!(world.get_block(Point::new(14, 0, 0)), Some(BasicBlock::Solid));
    assert_eq!(world.get_block(Point::new(15, 0, 0)), Some(BasicBlock::Empty));
    assert_eq!(world.get_block(Point::new(16, 0, 0)), Some(BasicBlock::Solid));
    assert_eq!(world.get_block(Point::new(17, 0, 0)), Some(BasicBlock::Solid));
}

#[test]
fn set_slice_is_atomic_when_a_chunk_is_missing() {
    let mut world: VoxelWorld<BasicBlock> = VoxelWorld::new();
    let generator = UniformGenerator { value: BasicBlock::Empty };
    world.load_chunk(Point::new(0, 0, 0), &generator);
    // the region reaches into the absent chunk at (1, 0, 0)
    let region = Region::new(Point::new(14, 0, 0), Point::new(17, 0, 0));
    let slice = DataSlice {
        region,
        data: vec![BasicBlock::Solid; 4],
    };
    assert_eq!(world.set_slice(&slice), Err(VoxelError::ChunkNotResident));
    // nothing was written
    assert_eq!(world.get_block(Point::new(14, 0, 0)), Some(BasicBlock::Empty));
    assert_eq!(world.get_block(Point::new(15, 0, 0)), Some(BasicBlock::Empty));
}

#[test]
fn get_slice_fails_on_absent_chunk() {
    let world: VoxelWorld<BasicBlock> = VoxelWorld::new();
    let region = Region::new(Point::new(0, 0, 0), Point::new(0, 0, 0));
    assert_eq!(
        world.get_slice(region).map(|s| s.data),
        Err(VoxelError::ChunkNotResident)
    );
}

#[test]
fn set_chunk_inserts_and_replaces() {
    let mut world: VoxelWorld<BasicBlock> = VoxelWorld::new();
    let mut chunk: Chunk<BasicBlock> = Chunk::new();
    chunk.set_block(Point::new(0, 0, 0), BasicBlock::Solid).unwrap();
    world.set_chunk(Point::new(0, 0, 0), chunk);
    assert!(world.is_resident(Point::new(0, 0, 0)));
    assert_eq!(world.get_block(Point::new(0, 0, 0)), Some(BasicBlock::Solid));

    // replacing the chunk swaps its contents wholesale
    let fresh: Chunk<BasicBlock> = Chunk::new();
    world.set_chunk(Point::new(0, 0, 0), fresh);
    assert_eq!(world.get_block(Point::new(0, 0, 0)), Some(BasicBlock::Empty));
}

#[test]
fn get_chunk_reads_resident_chunks_only() {
    let mut world: VoxelWorld<BasicBlock> = VoxelWorld::new();
    assert!(world.get_chunk(Point::new(0, 0, 0)).is_none());
    world.set_chunk(Point::new(0, 0, 0), Chunk::new());
    let chunk = world.get_chunk(Point::new(0, 0, 0)).unwrap();
    assert_eq!(chunk.get_block(Point::new(1, 2, 3)), Ok(BasicBlock::Empty));
}
