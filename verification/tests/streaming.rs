use bones3::anchor::build_offset_table;
use bones3::anchor::load_chunks;
use bones3::anchor::remove_anchor;
use bones3::anchor::ChunkAnchor;
use bones3::anchor::OffsetTableCache;
use bones3::block::BasicBlock;
use bones3::coords::Point;
use bones3::generator::UniformGenerator;
use bones3::world::VoxelWorld;

fn dist2(p: &Point) -> i64 {
    let x = p.x as i64;
    let y = p.y as i64;
    let z = p.z as i64;
    x * x + y * y + z * z
}

#[test]
fn offset_table_radius_zero_is_just_the_origin() {
    let t = build_offset_table(0);
    assert_eq!(t.offsets.len(), 1);
    assert_eq!(t.offsets[0], Point::new(0, 0, 0));
}

#[test]
fn offset_table_radius_one_has_seven_offsets_nearest_first() {
    let t = build_offset_table(1);
    assert_eq!(t.offsets.len(), 7);
    assert_eq!(t.offsets[0], Point::new(0, 0, 0));
    for o in &t.offsets[1..] {
        assert_eq!(dist2(o), 1);
    }
}

#[test]
fn offset_table_is_sorted_unique_and_complete() {
    let t = build_offset_table(2);
    // offsets with squared distance 0, 1, 2, 3 and 4: 1 + 6 + 12 + 8 + 6
    assert_eq!(t.offsets.len(), 33);
    let mut last: i64 = 0;
    for o in &t.offsets {
        let d = dist2(o);
        assert!(d >= last);
        assert!(d <= 4);
        last = d;
    }
    let mut seen: Vec<(i32, i32, i32)> = t.offsets.iter().map(|p| (p.x, p.y, p.z)).collect();
    seen.sort();
    seen.dedup();
    assert_eq!(seen.len(), 33);
}

#[test]
fn offset_table_cache_memoizes_per_radius() {
    let mut cache = OffsetTableCache::new();
    cache.ensure(2);
    assert_eq!(cache.table(2).offsets.len(), 33);
    cache.ensure(2);
    assert_eq!(cache.table(2).offsets.len(), 33);
    cache.ensure(0);
    assert_eq!(cache.table(0).offsets.len(), 1);
    assert_eq!(cache.table(2).offsets.len(), 33);
}

#[test]
fn scheduling_pass_loads_the_desired_chunks() {
    let mut world: VoxelWorld<BasicBlock> = VoxelWorld::new();
    let mut anchors = vec![ChunkAnchor::new(1, Point::new(0, 0, 0))];
    let generator = UniformGenerator { value: BasicBlock::Solid };
    let mut cache = OffsetTableCache::new();
    let (loads, unloads) = load_chunks(&mut world, &mut anchors, &generator, &mut cache, 8, 100);
    assert_eq!(loads.len(), 7);
    assert_eq!(unloads.len(), 0);
    assert_eq!(anchors[0].claimed.len(), 7);
    assert!(world.is_resident(Point::new(0, 0, 0)));
    assert!(world.is_resident(Point::new(1, 0, 0)));
    assert!(world.is_resident(Point::new(0, -1, 0)));
    assert!(!world.is_resident(Point::new(1, 1, 0)));
}

#[test]
fn scheduling_budget_loads_nearest_chunk_first() {
    let mut world: VoxelWorld<BasicBlock> = VoxelWorld::new();
    let mut anchors = vec![ChunkAnchor::new(1, Point::new(0, 0, 0))];
    let generator = UniformGenerator { value: BasicBlock::Solid };
    let mut cache = OffsetTableCache::new();
    let (loads, _) = load_chunks(&mut world, &mut anchors, &generator, &mut cache, 8, 1);
    assert_eq!(loads.len(), 1);
    // the anchor's own chunk is the nearest and is served first
    assert_eq!(loads[0].chunk, Point::new(0, 0, 0));
    // the next pass continues where the budget ran out
    let (more, _) = load_chunks(&mut world, &mut anchors, &generator, &mut cache, 8, 100);
    assert_eq!(more.len(), 6);
    assert_eq!(anchors[0].claimed.len(), 7);
}

#[test]
fn anchor_radius_is_truncated_to_the_maximum() {
    let mut world: VoxelWorld<BasicBlock> = VoxelWorld::new();
    let mut anchors = vec![ChunkAnchor::new(200, Point::new(0, 0, 0))];
    let generator = UniformGenerator { value: BasicBlock::Solid };
    let mut cache = OffsetTableCache::new();
    let (loads, _) = load_chunks(&mut world, &mut anchors, &generator, &mut cache, 0, 100);
    // the effective radius is 0: only the anchor's own chunk
    assert_eq!(loads.len(), 1);
    assert_eq!(loads[0].chunk, Point::new(0, 0, 0));
}

#[test]
fn moving_an_anchor_unloads_what_left_its_radius() {
    let mut world: VoxelWorld<BasicBlock> = VoxelWorld::new();
    let mut anchors = vec![ChunkAnchor::new(0, Point::new(0, 0, 0))];
    let generator = UniformGenerator { value: BasicBlock::Solid };
    let mut cache = OffsetTableCache::new();
    load_chunks(&mut world, &mut anchors, &generator, &mut cache, 4, 100);
    assert!(world.is_resident(Point::new(0, 0, 0)));
    // move the observer two chunks over
    anchors[0].move_to(Point::new(32, 0, 0));
    let (loads, unloads) = load_chunks(&mut world, &mut anchors, &generator, &mut cache, 4, 100);
    assert_eq!(unloads.len(), 1);
    assert_eq!(unloads[0].chunk, Point::new(0, 0, 0));
    assert_eq!(loads.len(), 1);
    assert_eq!(loads[0].chunk, Point::new(2, 0, 0));
    assert!(!world.is_resident(Point::new(0, 0, 0)));
    assert!(world.is_resident(Point::new(2, 0, 0)));
}

#[test]
fn chunk_claimed_by_two_anchors_survives_one_removal() {
    let mut world: VoxelWorld<BasicBlock> = VoxelWorld::new();
    let mut anchors = vec![
        ChunkAnchor::new(0, Point::new(0, 0, 0)),
        ChunkAnchor::new(0, Point::new(0, 0, 0)),
    ];
    let generator = UniformGenerator { value: BasicBlock::Solid };
    let mut cache = OffsetTableCache::new();
    let (loads, _) = load_chunks(&mut world, &mut anchors, &generator, &mut cache, 4, 100);
    // both anchors claim the same chunk, generated once
    assert_eq!(loads.len(), 1);
    let c = Point::new(0, 0, 0);
    assert!(world.is_resident(c));

    // removing one anchor must not unload the chunk
    let events = remove_anchor(&mut world, &mut anchors, 0);
    assert_eq!(events.len(), 0);
    assert!(world.is_resident(c));

    // removing the last claimant unloads it exactly once
    let events = remove_anchor(&mut world, &mut anchors, 0);
    assert_eq!(events.len(), 1);
    assert_eq!(events[0].chunk, c);
    assert!(!world.is_resident(c));
}
