use bones3::block::BasicBlock;
use bones3::block::Face;
use bones3::coords::Point;
use bones3::generator::FloorGenerator;
use bones3::generator::UniformGenerator;
use bones3::mesh::generate_mesh;
use bones3::mesh::MeshFace;
use bones3::region::Region;
use bones3::world::VoxelWorld;

#[test]
fn mesh_of_empty_world_region_is_empty() {
    let mut world: VoxelWorld<BasicBlock> = VoxelWorld::new();
    let generator = UniformGenerator { value: BasicBlock::Empty };
    world.load_chunk(Point::new(0, 0, 0), &generator);
    let mesh = generate_mesh(&world, Region::new(Point::new(0, 0, 0), Point::new(15, 15, 15)));
    assert_eq!(mesh.faces.len(), 0);
}

#[test]
fn mesh_of_unloaded_region_is_empty() {
    let world: VoxelWorld<BasicBlock> = VoxelWorld::new();
    let mesh = generate_mesh(&world, Region::new(Point::new(0, 0, 0), Point::new(7, 7, 7)));
    assert_eq!(mesh.faces.len(), 0);
}

#[test]
fn two_adjacent_solid_blocks_expose_ten_faces() {
    let mut world: VoxelWorld<BasicBlock> = VoxelWorld::new();
    let generator = UniformGenerator { value: BasicBlock::Empty };
    world.load_chunk(Point::new(0, 0, 0), &generator);
    world.set_block(Point::new(1, 1, 1), BasicBlock::Solid).unwrap();
    world.set_block(Point::new(2, 1, 1), BasicBlock::Solid).unwrap();

    let mesh = generate_mesh(&world, Region::new(Point::new(1, 1, 1), Point::new(2, 1, 1)));
    assert_eq!(mesh.faces.len(), 10);
    // the two interior faces between the blocks are culled
    assert!(!mesh.faces.contains(&MeshFace { position: Point::new(1, 1, 1), face: Face::PosX }));
    assert!(!mesh.faces.contains(&MeshFace { position: Point::new(2, 1, 1), face: Face::NegX }));
    // the outward-facing ends are there
    assert!(mesh.faces.contains(&MeshFace { position: Point::new(1, 1, 1), face: Face::NegX }));
    assert!(mesh.faces.contains(&MeshFace { position: Point::new(2, 1, 1), face: Face::PosX }));
    // so are the four side faces of each block
    for p in [Point::new(1, 1, 1), Point::new(2, 1, 1)] {
        for f in [Face::PosY, Face::NegY, Face::PosZ, Face::NegZ] {
            assert!(mesh.faces.contains(&MeshFace { position: p, face: f }));
        }
    }
}

#[test]
fn floor_world_reads_solid_below_zero_and_empty_above() {
    let mut world: VoxelWorld<BasicBlock> = VoxelWorld::new();
    let generator = FloorGenerator {};
    world.load_chunk(Point::new(0, 0, 0), &generator);
    world.load_chunk(Point::new(0, -1, 0), &generator);
    assert_eq!(world.get_block(Point::new(0, -1, 0)), Some(BasicBlock::Solid));
    assert_eq!(world.get_block(Point::new(0, 0, 0)), Some(BasicBlock::Empty));
}

#[test]
fn floor_chunk_meshes_to_one_horizontal_face_layer() {
    let mut world: VoxelWorld<BasicBlock> = VoxelWorld::new();
    let generator = FloorGenerator {};
    world.load_chunk(Point::new(0, 0, 0), &generator);
    world.load_chunk(Point::new(0, -1, 0), &generator);

    // mesh the solid chunk below the surface
    let mesh = generate_mesh(&world, Region::new(Point::new(0, -16, 0), Point::new(15, -1, 15)));
    // exactly the 16 x 16 upward faces at the surface; every sideways and
    // downward neighbor is either solid or in an unloaded chunk
    assert_eq!(mesh.faces.len(), 256);
    for f in &mesh.faces {
        assert_eq!(f.face, Face::PosY);
        assert_eq!(f.position.y, -1);
    }
}
