//! Chunk anchors and the proximity-driven load scheduler.
//!
//! An anchor marks an observer: it has a world position, an immutable
//! load radius, and the set of chunk coordinates it currently claims. A
//! chunk stays resident while at least one anchor claims it. Each
//! scheduling pass walks a distance-sorted table of offsets (one table
//! per radius, memoized in an arena), claims and loads the nearest
//! missing chunks first under a per-pass generation budget, and releases
//! claims outside the radius, unloading chunks nobody claims any more.

use crate::block::BlockData;
use crate::coords::chunk_in_bounds;
use crate::coords::chunk_point;
use crate::coords::Point;
use crate::generator::WorldGenerator;
use crate::region::Region;
use crate::world::ChunkLoadEvent;
use crate::world::ChunkUnloadEvent;
use crate::world::VoxelWorld;
use vstd::prelude::*;

verus! {

/// Squared Euclidean length of the offset `(x, y, z)`.
pub open spec fn dist2_xyz(x: int, y: int, z: int) -> int {
    x * x + y * y + z * z
}

/// Squared Euclidean length of offset `o`.
pub open spec fn dist2(o: Point) -> int {
    dist2_xyz(o.x as int, o.y as int, o.z as int)
}

/// True when offset `o` lies within Euclidean distance `r` of the origin.
pub open spec fn in_radius(o: Point, r: int) -> bool {
    dist2(o) <= r * r
}

/// Squared Euclidean length of offset `o`.
fn dist2_of(o: Point) -> (d: i64)
    requires
        -65536 <= o.x <= 65536,
        -65536 <= o.y <= 65536,
        -65536 <= o.z <= 65536,
    ensures
        d as int == dist2(o),
{
    let x = o.x as i64;
    let y = o.y as i64;
    let z = o.z as i64;
    proof {
        assert(0 <= x * x <= 0x100000000 && 0 <= y * y <= 0x100000000 && 0 <= z * z
            <= 0x100000000) by (nonlinear_arith)
            requires
                -0x10000 <= x <= 0x10000,
                -0x10000 <= y <= 0x10000,
                -0x10000 <= z <= 0x10000,
        ;
    }
    x * x + y * y + z * z
}

/// A squared Euclidean length is never negative.
pub proof fn lemma_dist2_nonneg(o: Point)
    ensures
        dist2(o) >= 0,
{
    assert(o.x * o.x >= 0 && o.y * o.y >= 0 && o.z * o.z >= 0) by (nonlinear_arith);
}

/// All offsets within one radius, sorted by ascending distance.
pub struct OffsetTable {
    pub radius: u8,
    pub offsets: Vec<Point>,
}

impl OffsetTable {
    /// The table holds exactly the offsets within the radius, each once,
    /// ordered by ascending squared distance so the nearest chunks come
    /// first.
    pub open spec fn wf(self) -> bool {
        &&& forall|i: int|
            0 <= i < self.offsets@.len() ==> in_radius(#[trigger] self.offsets@[i], self.radius as int)
        &&& forall|o: Point| in_radius(o, self.radius as int) ==> self.offsets@.contains(o)
        &&& forall|i: int, j: int|
            0 <= i < j < self.offsets@.len() ==> dist2(self.offsets@[i]) <= dist2(self.offsets@[j])
        &&& forall|i: int, j: int|
            0 <= i < j < self.offsets@.len() ==> self.offsets@[i] != self.offsets@[j]
    }
}

/// Builds the offset table of one radius: every offset whose Euclidean
/// distance is at most the radius, nearest first.
pub fn build_offset_table(radius: u8) -> (t: OffsetTable)
    ensures
        t.wf(),
        t.radius == radius,
{
    let r = radius as i32;
    let cube = Region::new(Point::new(-r, -r, -r), Point::new(r, r, r));
    proof {
        assert(cube.volume() == (2 * r + 1) * (2 * r + 1) * (2 * r + 1)) by {
            assert(cube.extent_x() == 2 * r + 1);
        }
        assert((2 * r + 1) * (2 * r + 1) * (2 * r + 1) <= 0x8000000) by (nonlinear_arith)
            requires
                0 <= r <= 255,
        ;
    }
    let pts = cube.points();
    proof {
        assert(0 <= (r as i64) * (r as i64) <= 65025) by (nonlinear_arith)
            requires
                0 <= r <= 255,
        ;
    }
    let r2: i64 = (r as i64) * (r as i64);
    let mut offsets: Vec<Point> = Vec::new();
    let mut d: i64 = 0;
    while d <= r2
        invariant
            0 <= d <= r2 + 1,
            r2 == (radius as int) * (radius as int),
            r2 <= 65025,
            r == radius as int,
            0 <= r <= 255,
            cube.min.x == -r && cube.min.y == -r && cube.min.z == -r,
            cube.max.x == r && cube.max.y == r && cube.max.z == r,
            pts@.len() == cube.volume(),
            forall|k: int| 0 <= k < pts@.len() ==> pts@[k] == cube.coord_at(k),
            forall|i: int|
                0 <= i < offsets@.len() ==> dist2(#[trigger] offsets@[i]) < d && in_radius(
                    offsets@[i],
                    radius as int,
                ),
            forall|o: Point|
                in_radius(o, radius as int) && 0 <= dist2(o) < d ==> offsets@.contains(o),
            forall|i: int, j: int|
                0 <= i < j < offsets@.len() ==> dist2(offsets@[i]) <= dist2(offsets@[j]),
            forall|i: int, j: int|
                0 <= i < j < offsets@.len() ==> offsets@[i] != offsets@[j],
        decreases r2 + 1 - d,
    {
        let ghost base = offsets@;
        let n = pts.len();
        let mut k: usize = 0;
        while k < n
            invariant
                0 <= d <= r2,
                r2 == (radius as int) * (radius as int),
                r2 <= 65025,
                r == radius as int,
                0 <= r <= 255,
                cube.min.x == -r && cube.min.y == -r && cube.min.z == -r,
                cube.max.x == r && cube.max.y == r && cube.max.z == r,
                n == pts@.len(),
                k <= n,
                pts@.len() == cube.volume(),
                forall|k2: int| 0 <= k2 < pts@.len() ==> pts@[k2] == cube.coord_at(k2),
                offsets@.len() >= base.len(),
                forall|i: int| 0 <= i < base.len() ==> offsets@[i] == base[i],
                forall|i: int|
                    0 <= i < base.len() ==> dist2(#[trigger] base[i]) < d && in_radius(
                        base[i],
                        radius as int,
                    ),
                forall|o: Point|
                    in_radius(o, radius as int) && 0 <= dist2(o) < d ==> base.contains(o),
                forall|i: int|
                    base.len() <= i < offsets@.len() ==> dist2(#[trigger] offsets@[i]) == d
                        && in_radius(offsets@[i], radius as int),
                forall|i: int|
                    base.len() <= i < offsets@.len() ==> exists|k2: int|
                        0 <= k2 < k && pts@[k2] == #[trigger] offsets@[i],
                forall|k2: int|
                    0 <= k2 < k && dist2(#[trigger] pts@[k2]) == d ==> offsets@.contains(
                        pts@[k2],
                    ),
                forall|i: int, j: int|
                    0 <= i < j < offsets@.len() ==> dist2(offsets@[i]) <= dist2(offsets@[j]),
                forall|i: int, j: int|
                    0 <= i < j < offsets@.len() ==> offsets@[i] != offsets@[j],
            decreases n - k,
        {
            proof {
                cube.lemma_coord_at_in_region(k as int);
            }
            let p = pts[k];
            let dp = dist2_of(p);
            if dp == d {
                let ghost prev = offsets@;
                proof {
                    assert forall|i: int| 0 <= i < prev.len() implies prev[i] != p by {
                        if i < base.len() {
                            assert(prev[i] == base[i]);
                            assert(dist2(base[i]) < d);
                        } else {
                            let k2 = choose|k2: int| 0 <= k2 < k && pts@[k2] == prev[i];
                            if prev[i] == p {
                                cube.lemma_scan_unique(k2, k as int);
                            }
                        }
                    }
                }
                offsets.push(p);
                proof {
                    assert forall|i: int, j: int|
                        0 <= i < j < offsets@.len() implies dist2(offsets@[i]) <= dist2(
                        offsets@[j],
                    ) by {
                        if j == offsets@.len() - 1 {
                            assert(offsets@[j] == p);
                            assert(offsets@[i] == prev[i]);
                            if i < base.len() {
                                assert(prev[i] == base[i]);
                                assert(dist2(base[i]) < d);
                            } else {
                                assert(dist2(prev[i]) == d);
                            }
                        } else {
                            assert(offsets@[i] == prev[i] && offsets@[j] == prev[j]);
                        }
                    }
                    assert forall|k2: int|
                        0 <= k2 < k + 1 && dist2(#[trigger] pts@[k2]) == d implies offsets@.contains(
                        pts@[k2],
                    ) by {
                        if k2 < k {
                            let w = choose|w: int| 0 <= w < prev.len() && prev[w] == pts@[k2];
                            assert(offsets@[w] == pts@[k2]);
                        } else {
                            assert(offsets@[prev.len() as int] == p);
                        }
                    }
                }
            }
            k = k + 1;
        }
        proof {
            assert forall|o: Point|
                in_radius(o, radius as int) && 0 <= dist2(o) < d + 1 implies offsets@.contains(
                o,
            ) by {
                if dist2(o) < d {
                    let w = choose|w: int| 0 <= w < base.len() && base[w] == o;
                    assert(offsets@[w] == o);
                } else {
                    assert(dist2(o) == d);
                    assert(-r <= o.x <= r && -r <= o.y <= r && -r <= o.z <= r) by (nonlinear_arith)
                        requires
                            o.x * o.x + o.y * o.y + o.z * o.z <= (radius as int) * (radius as int),
                            r == radius as int,
                    ;
                    assert(cube.contains_spec(o));
                    cube.lemma_index_of_in_scan(o);
                    let k2 = cube.index_of(o);
                    assert(pts@[k2] == o);
                }
            }
            assert forall|i: int|
                0 <= i < offsets@.len() implies dist2(#[trigger] offsets@[i]) < d + 1 && in_radius(
                offsets@[i],
                radius as int,
            ) by {
                if i < base.len() {
                    assert(offsets@[i] == base[i]);
                    assert(dist2(base[i]) < d);
                } else {
                    assert(dist2(offsets@[i]) == d);
                }
            }
        }
        d = d + 1;
    }
    proof {
        assert forall|o: Point| in_radius(o, radius as int) implies offsets@.contains(o) by {
            lemma_dist2_nonneg(o);
            assert(0 <= dist2(o) < d);
        }
    }
    OffsetTable { radius, offsets }
}

/// Memoized arena of offset tables, indexed by radius.
pub struct OffsetTableCache {
    pub tables: Vec<Option<OffsetTable>>,
}

impl OffsetTableCache {
    /// Every table stored under a radius is that radius's table.
    pub open spec fn wf(self) -> bool {
        forall|i: int|
            0 <= i < self.tables@.len() && (#[trigger] self.tables@[i]) is Some
                ==> self.tables@[i].unwrap().wf() && self.tables@[i].unwrap().radius as int == i
    }

    /// True when the table of `radius` has been built.
    pub open spec fn cached(self, radius: u8) -> bool {
        radius < self.tables@.len() && self.tables@[radius as int] is Some
    }

    /// The stored table of `radius`.
    pub open spec fn table_spec(self, radius: u8) -> OffsetTable {
        self.tables@[radius as int].unwrap()
    }

    /// An arena with no table built yet.
    pub fn new() -> (c: Self)
        ensures
            c.wf(),
            c.tables@.len() == 0,
    {
        OffsetTableCache { tables: Vec::new() }
    }

    /// Builds and stores the table of `radius` unless it is already
    /// there; an arena that already holds it is left untouched.
    pub fn ensure(&mut self, radius: u8)
        requires
            old(self).wf(),
        ensures
            final(self).wf(),
            final(self).cached(radius),
            old(self).cached(radius) ==> *final(self) == *old(self),
            forall|r2: u8| old(self).cached(r2) ==> final(self).cached(r2) && final(self).table_spec(r2) == old(self).table_spec(r2),
    {
        while self.tables.len() <= radius as usize
            invariant
                self.wf(),
                old(self).cached(radius) ==> *self == *old(self),
                old(self).tables@.len() <= self.tables@.len(),
                forall|i: int|
                    0 <= i < old(self).tables@.len() ==> #[trigger] self.tables@[i] == old(self).tables@[i],
                old(self).cached(radius) ==> self.tables@.len() == old(self).tables@.len(),
            decreases radius as int + 1 - self.tables@.len(),
        {
            self.tables.push(None);
        }
        if self.tables[radius as usize].is_none() {
            let t = build_offset_table(radius);
            self.tables.set(radius as usize, Some(t));
        }
    }

    /// The table of `radius`, already built.
    pub fn table(&self, radius: u8) -> (t: &OffsetTable)
        requires
            self.wf(),
            self.cached(radius),
        ensures
            *t == self.table_spec(radius),
            t.wf(),
            t.radius == radius,
    {
        match &self.tables[radius as usize] {
            Some(t) => t,
            None => {
                proof {
                    assert(false);
                }
                unreached()
            },
        }
    }
}

/// An observer that keeps chunks around it resident.
pub struct ChunkAnchor {
    /// Load radius in chunks; fixed at creation.
    pub radius: u8,
    /// World position of the observer.
    pub center: Point,
    /// Chunk coordinates this anchor currently claims.
    pub claimed: Vec<Point>,
}

impl ChunkAnchor {
    /// No coordinate is claimed twice.
    pub open spec fn wf(self) -> bool {
        forall|i: int, j: int|
            0 <= i < j < self.claimed@.len() ==> self.claimed@[i] != self.claimed@[j]
    }

    /// True when this anchor claims chunk coordinate `c`.
    pub open spec fn claims(self, c: Point) -> bool {
        self.claimed@.contains(c)
    }

    /// A fresh anchor at `center` with the given radius and no claims.
    pub fn new(radius: u8, center: Point) -> (a: ChunkAnchor)
        ensures
            a.wf(),
            a.radius == radius,
            a.center == center,
            a.claimed@.len() == 0,
    {
        ChunkAnchor { radius, center, claimed: Vec::new() }
    }

    /// Moves the observer; its claims follow only on the next scheduling
    /// pass.
    pub fn move_to(&mut self, center: Point)
        ensures
            final(self).radius == old(self).radius,
            final(self).center == center,
            final(self).claimed == old(self).claimed,
    {
        self.center = center;
    }
}

/// True when some anchor of `anchors` claims `c`.
pub open spec fn any_claims(anchors: Seq<ChunkAnchor>, c: Point) -> bool {
    exists|i: int| 0 <= i < anchors.len() && (#[trigger] anchors[i]).claims(c)
}

/// True when an anchor other than `except` claims `c`.
pub open spec fn any_other_claims(anchors: Seq<ChunkAnchor>, except: int, c: Point) -> bool {
    exists|i: int|
        0 <= i < anchors.len() && i != except && (#[trigger] anchors[i]).claims(c)
}

/// Every claim of every anchor is a resident chunk, and every anchor is
/// well formed.
pub open spec fn claims_wf<T: BlockData>(anchors: Seq<ChunkAnchor>, world: VoxelWorld<T>) -> bool {
    &&& forall|i: int| 0 <= i < anchors.len() ==> (#[trigger] anchors[i]).wf()
    &&& forall|i: int, c: Point|
        0 <= i < anchors.len() && #[trigger] anchors[i].claims(c) ==> world.resident(c)
}

/// Claims of the list with `except` removed are exactly the claims of the
/// others.
pub proof fn lemma_remove_claims(anchors: Seq<ChunkAnchor>, except: int, c: Point)
    requires
        0 <= except < anchors.len(),
    ensures
        any_claims(anchors.remove(except), c) == any_other_claims(anchors, except, c),
{
    let rest = anchors.remove(except);
    if any_claims(rest, c) {
        let i = choose|i: int| 0 <= i < rest.len() && (#[trigger] rest[i]).claims(c);
        if i < except {
            assert(anchors[i].claims(c));
        } else {
            assert(anchors[i + 1].claims(c));
        }
    }
    if any_other_claims(anchors, except, c) {
        let i = choose|i: int|
            0 <= i < anchors.len() && i != except && (#[trigger] anchors[i]).claims(c);
        if i < except {
            assert(rest[i].claims(c));
        } else {
            assert(rest[i - 1].claims(c));
        }
    }
}

/// While any other anchor still claims `c`, the claim survives the
/// removal of anchor `i`: the union of all anchors' claims decides
/// residency, not any single anchor.
pub proof fn lemma_union_residency(anchors: Seq<ChunkAnchor>, i: int, j: int, c: Point)
    requires
        0 <= i < anchors.len(),
        0 <= j < anchors.len(),
        i != j,
        anchors[j].claims(c),
    ensures
        any_other_claims(anchors, i, c),
{
}

/// True when `v` holds `c`.
pub fn contains_point(v: &Vec<Point>, c: Point) -> (b: bool)
    ensures
        b == v@.contains(c),
{
    let n = v.len();
    let mut i: usize = 0;
    while i < n
        invariant
            n == v@.len(),
            i <= n,
            forall|k: int| 0 <= k < i ==> v@[k] != c,
        decreases n - i,
    {
        if v[i] == c {
            return true;
        }
        i = i + 1;
    }
    false
}

/// A copy of a coordinate list.
fn copy_points(v: &Vec<Point>) -> (r: Vec<Point>)
    ensures
        r@ == v@,
{
    let n = v.len();
    let mut r: Vec<Point> = Vec::new();
    let mut i: usize = 0;
    while i < n
        invariant
            n == v@.len(),
            i <= n,
            r@.len() == i,
            forall|k: int| 0 <= k < i ==> r@[k] == v@[k],
        decreases n - i,
    {
        r.push(v[i]);
        i = i + 1;
    }
    proof {
        assert(r@ =~= v@);
    }
    r
}

/// True when some anchor of `anchors` claims `c`.
pub fn any_claims_exec(anchors: &Vec<ChunkAnchor>, c: Point) -> (b: bool)
    ensures
        b == any_claims(anchors@, c),
{
    let n = anchors.len();
    let mut i: usize = 0;
    while i < n
        invariant
            n == anchors@.len(),
            i <= n,
            forall|k: int| 0 <= k < i ==> !(#[trigger] anchors@[k]).claims(c),
        decreases n - i,
    {
        if contains_point(&anchors[i].claimed, c) {
            return true;
        }
        i = i + 1;
    }
    false
}

/// Removes anchor `idx`, releasing its claims: a chunk it claimed is
/// unloaded, with one unload event, exactly when no other anchor claims
/// it; chunks claimed by any other anchor stay resident and untouched.
pub fn remove_anchor<T: BlockData>(
    world: &mut VoxelWorld<T>,
    anchors: &mut Vec<ChunkAnchor>,
    idx: usize,
) -> (events: Vec<ChunkUnloadEvent>)
    requires
        old(world).wf(),
        idx < old(anchors)@.len(),
        claims_wf(old(anchors)@, *old(world)),
    ensures
        final(world).wf(),
        final(anchors)@ == old(anchors)@.remove(idx as int),
        claims_wf(final(anchors)@, *final(world)),
        forall|c: Point|
            final(world).resident(c) == (old(world).resident(c) && !(old(anchors)@[idx as int].claims(c) && !any_other_claims(old(anchors)@, idx as int, c))),
        forall|c: Point|
            final(world).resident(c) ==> final(world).chunk_at(c) == old(world).chunk_at(c),
        forall|k: int|
            0 <= k < events@.len() ==> old(world).resident((#[trigger] events@[k]).chunk) && old(anchors)@[idx as int].claims(events@[k].chunk) && !any_other_claims(
                old(anchors)@,
                idx as int,
                events@[k].chunk,
            ),
        forall|c: Point|
            old(world).resident(c) && #[trigger] old(anchors)@[idx as int].claims(c)
                && !any_other_claims(old(anchors)@, idx as int, c) ==> exists|k: int|
                0 <= k < events@.len() && (#[trigger] events@[k]).chunk == c,
        forall|k1: int, k2: int|
            0 <= k1 < k2 < events@.len() ==> events@[k1].chunk != events@[k2].chunk,
{
    let a = vec_remove_anchor(anchors, idx);
    proof {
        assert forall|c: Point| any_claims(anchors@, c) == any_other_claims(
            old(anchors)@,
            idx as int,
            c,
        ) by {
            lemma_remove_claims(old(anchors)@, idx as int, c);
        }
        assert forall|i: int| 0 <= i < anchors@.len() implies (#[trigger] anchors@[i]).wf() by {
            if i < idx {
                assert(anchors@[i] == old(anchors)@[i]);
            } else {
                assert(anchors@[i] == old(anchors)@[i + 1]);
            }
        }
        assert forall|i: int, c: Point|
            0 <= i < anchors@.len() && #[trigger] anchors@[i].claims(c) implies old(world).resident(c) by {
            if i < idx {
                assert(anchors@[i] == old(anchors)@[i]);
            } else {
                assert(anchors@[i] == old(anchors)@[i + 1]);
            }
        }
    }
    let mut events: Vec<ChunkUnloadEvent> = Vec::new();
    let n = a.claimed.len();
    let mut k: usize = 0;
    while k < n
        invariant
            world.wf(),
            n == a.claimed@.len(),
            k <= n,
            a.wf(),
            a == old(anchors)@[idx as int],
            forall|c: Point| #[trigger] a.claims(c) ==> old(world).resident(c),
            anchors@ == old(anchors)@.remove(idx as int),
            forall|c: Point| any_claims(anchors@, c) == any_other_claims(
                old(anchors)@,
                idx as int,
                c,
            ),
            forall|i: int, c: Point|
                0 <= i < anchors@.len() && #[trigger] anchors@[i].claims(c) ==> old(world).resident(c),
            forall|i: int| 0 <= i < anchors@.len() ==> (#[trigger] anchors@[i]).wf(),
            forall|c: Point|
                world.resident(c) == (old(world).resident(c) && !dropped_prefix(
                    a,
                    anchors@,
                    k as int,
                    c,
                )),
            forall|c: Point| world.resident(c) ==> world.chunk_at(c) == old(world).chunk_at(c),
            forall|k2: int|
                0 <= k2 < events@.len() ==> old(world).resident((#[trigger] events@[k2]).chunk)
                    && dropped_prefix(a, anchors@, k as int, events@[k2].chunk),
            forall|c: Point|
                old(world).resident(c) && #[trigger] dropped_prefix(a, anchors@, k as int, c)
                    ==> exists|k2: int|
                    0 <= k2 < events@.len() && (#[trigger] events@[k2]).chunk == c,
            forall|k1: int, k2: int|
                0 <= k1 < k2 < events@.len() ==> events@[k1].chunk != events@[k2].chunk,
        decreases n - k,
    {
        let c = a.claimed[k];
        let ghost prev_events = events@;
        if !any_claims_exec(anchors, c) {
            proof {
                assert(a.claimed@[k as int] == c);
                assert(a.claims(c));
                assert(old(world).resident(c));
                assert(!dropped_prefix(a, anchors@, k as int, c)) by {
                    if dropped_prefix(a, anchors@, k as int, c) {
                        let k2 = choose|k2: int|
                            0 <= k2 < k && a.claimed@[k2] == c && !any_claims(anchors@, c);
                        assert(a.claimed@[k2] == a.claimed@[k as int]);
                    }
                }
                assert(world.resident(c));
            }
            let ev = world.unload_chunk(c);
            match ev {
                Some(e) => events.push(e),
                None => {
                    proof {
                        assert(false);
                    }
                },
            }
            proof {
                assert forall|c2: Point|
                    world.resident(c2) == (old(world).resident(c2) && !dropped_prefix(
                    a,
                    anchors@,
                    k as int + 1,
                    c2,
                )) by {
                    lemma_dropped_prefix_step(a, anchors@, k as int, c2);
                }
                assert forall|k2: int|
                    0 <= k2 < events@.len() implies old(world).resident(
                    (#[trigger] events@[k2]).chunk,
                ) && dropped_prefix(a, anchors@, k as int + 1, events@[k2].chunk) by {
                    if k2 < prev_events.len() {
                        assert(events@[k2] == prev_events[k2]);
                        lemma_dropped_prefix_step(a, anchors@, k as int, prev_events[k2].chunk);
                    } else {
                        assert(events@[k2].chunk == c);
                        lemma_dropped_prefix_step(a, anchors@, k as int, c);
                    }
                }
                assert forall|c2: Point|
                    old(world).resident(c2) && #[trigger] dropped_prefix(
                    a,
                    anchors@,
                    k as int + 1,
                    c2,
                ) implies exists|k2: int|
                    0 <= k2 < events@.len() && (#[trigger] events@[k2]).chunk == c2 by {
                    lemma_dropped_prefix_step(a, anchors@, k as int, c2);
                    if c2 == c {
                        assert(events@[prev_events.len() as int].chunk == c);
                    } else {
                        assert(dropped_prefix(a, anchors@, k as int, c2));
                        let k3 = choose|k3: int|
                            0 <= k3 < prev_events.len() && (#[trigger] prev_events[k3]).chunk
                                == c2;
                        assert(events@[k3].chunk == c2);
                    }
                }
                assert forall|k1: int, k2: int|
                    0 <= k1 < k2 < events@.len() implies events@[k1].chunk != events@[k2].chunk by {
                    if k2 == events@.len() - 1 {
                        assert(events@[k1] == prev_events[k1]);
                        if events@[k1].chunk == c {
                            assert(dropped_prefix(a, anchors@, k as int, c));
                        }
                    } else {
                        assert(events@[k1] == prev_events[k1]);
                        assert(events@[k2] == prev_events[k2]);
                    }
                }
            }
        } else {
            proof {
                assert forall|c2: Point|
                    #[trigger] dropped_prefix(a, anchors@, k as int + 1, c2) == dropped_prefix(
                    a,
                    anchors@,
                    k as int,
                    c2,
                ) by {
                    lemma_dropped_prefix_step(a, anchors@, k as int, c2);
                }
                assert forall|c2: Point|
                    world.resident(c2) == (old(world).resident(c2) && !dropped_prefix(
                    a,
                    anchors@,
                    k as int + 1,
                    c2,
                )) by {
                    lemma_dropped_prefix_step(a, anchors@, k as int, c2);
                }
                assert forall|k2: int|
                    0 <= k2 < events@.len() implies old(world).resident(
                    (#[trigger] events@[k2]).chunk,
                ) && dropped_prefix(a, anchors@, k as int + 1, events@[k2].chunk) by {
                    lemma_dropped_prefix_step(a, anchors@, k as int, events@[k2].chunk);
                }
                assert forall|c2: Point|
                    old(world).resident(c2) && #[trigger] dropped_prefix(
                    a,
                    anchors@,
                    k as int + 1,
                    c2,
                ) implies exists|k2: int|
                    0 <= k2 < events@.len() && (#[trigger] events@[k2]).chunk == c2 by {
                    lemma_dropped_prefix_step(a, anchors@, k as int, c2);
                    assert(dropped_prefix(a, anchors@, k as int, c2));
                }
            }
        }
        k = k + 1;
    }
    proof {
        assert forall|c: Point|
            (old(anchors)@[idx as int].claims(c) && !any_other_claims(
                old(anchors)@,
                idx as int,
                c,
            )) == dropped_prefix(a, anchors@, n as int, c) by {
            if a.claims(c) && !any_claims(anchors@, c) {
                let k2 = choose|k2: int| 0 <= k2 < a.claimed@.len() && a.claimed@[k2] == c;
                assert(0 <= k2 < n && a.claimed@[k2] == c && !any_claims(anchors@, c));
                assert(dropped_prefix(a, anchors@, n as int, c));
            }
            if dropped_prefix(a, anchors@, n as int, c) {
                let k2 = choose|k2: int|
                    0 <= k2 < n && a.claimed@[k2] == c && !any_claims(anchors@, c);
                assert(a.claimed@[k2] == c);
                assert(a.claims(c));
            }
        }
    }
    events
}


/// `c` was dropped by one of the first `k` claims of the removed anchor
/// and no remaining anchor claims it.
spec fn dropped_prefix(a: ChunkAnchor, anchors: Seq<ChunkAnchor>, k: int, c: Point) -> bool {
    exists|k2: int| 0 <= k2 < k && a.claimed@[k2] == c && !any_claims(anchors, c)
}

/// How one step of the release loop extends the dropped set.
proof fn lemma_dropped_prefix_step(a: ChunkAnchor, anchors: Seq<ChunkAnchor>, k: int, c: Point)
    requires
        0 <= k < a.claimed@.len(),
    ensures
        dropped_prefix(a, anchors, k + 1, c) == (dropped_prefix(a, anchors, k, c) || (c
            == a.claimed@[k] && !any_claims(anchors, c))),
{
    if dropped_prefix(a, anchors, k + 1, c) {
        let k2 = choose|k2: int| 0 <= k2 < k + 1 && a.claimed@[k2] == c && !any_claims(anchors, c);
        if k2 < k {
            assert(dropped_prefix(a, anchors, k, c));
        }
    }
    if dropped_prefix(a, anchors, k, c) {
        let k2 = choose|k2: int| 0 <= k2 < k && a.claimed@[k2] == c && !any_claims(anchors, c);
        assert(0 <= k2 < k + 1 && a.claimed@[k2] == c && !any_claims(anchors, c));
    }
    if c == a.claimed@[k] && !any_claims(anchors, c) {
        assert(0 <= k < k + 1 && a.claimed@[k] == c && !any_claims(anchors, c));
    }
}

/// Removes and returns element `idx` of the anchor list.
fn vec_remove_anchor(v: &mut Vec<ChunkAnchor>, idx: usize) -> (a: ChunkAnchor)
    requires
        idx < old(v)@.len(),
    ensures
        a == old(v)@[idx as int],
        final(v)@ == old(v)@.remove(idx as int),
{
    v.remove(idx)
}


/// The load radius the scheduler grants anchor `a`: its own radius,
/// truncated to the configured maximum.
pub open spec fn effective_radius(a: ChunkAnchor, max_radius: u8) -> int {
    if a.radius <= max_radius {
        a.radius as int
    } else {
        max_radius as int
    }
}

/// Squared distance from chunk coordinate `c` to the chunk holding
/// anchor `a`'s position.
pub open spec fn anchor_dist2(a: ChunkAnchor, c: Point) -> int {
    dist2_xyz(
        c.x - chunk_point(a.center).x,
        c.y - chunk_point(a.center).y,
        c.z - chunk_point(a.center).z,
    )
}

/// True when chunk coordinate `c` lies within anchor `a`'s effective
/// radius around the chunk holding the anchor's position: the chunks the
/// anchor wants resident.
pub open spec fn desired_spec(a: ChunkAnchor, max_radius: u8, c: Point) -> bool {
    anchor_dist2(a, c) <= effective_radius(a, max_radius) * effective_radius(a, max_radius)
}

/// The desired chunk coordinates of an anchor at chunk `ac`, in the
/// table's nearest-first order.
fn build_desired(ac: Point, table: &OffsetTable) -> (desired: Vec<Point>)
    requires
        table.wf(),
        chunk_in_bounds(ac),
    ensures
        desired@.len() == table.offsets@.len(),
        forall|k: int|
            0 <= k < desired@.len() ==> (#[trigger] desired@[k]).x == ac.x + table.offsets@[k].x
                && desired@[k].y == ac.y + table.offsets@[k].y && desired@[k].z == ac.z
                + table.offsets@[k].z,
        forall|k1: int, k2: int|
            0 <= k1 < k2 < desired@.len() ==> desired@[k1] != desired@[k2],
        forall|c: Point|
            desired@.contains(c) == (dist2_xyz(c.x - ac.x, c.y - ac.y, c.z - ac.z) <= (
            table.radius as int) * (table.radius as int)),
{
    let n = table.offsets.len();
    let mut desired: Vec<Point> = Vec::new();
    let mut k: usize = 0;
    while k < n
        invariant
            table.wf(),
            chunk_in_bounds(ac),
            n == table.offsets@.len(),
            k <= n,
            desired@.len() == k,
            forall|k2: int|
                0 <= k2 < k ==> (#[trigger] desired@[k2]).x == ac.x + table.offsets@[k2].x
                    && desired@[k2].y == ac.y + table.offsets@[k2].y && desired@[k2].z == ac.z
                    + table.offsets@[k2].z,
        decreases n - k,
    {
        let o = table.offsets[k];
        proof {
            assert(in_radius(o, table.radius as int));
            assert(-255 <= o.x <= 255 && -255 <= o.y <= 255 && -255 <= o.z <= 255)
                by (nonlinear_arith)
                requires
                    o.x * o.x + o.y * o.y + o.z * o.z <= (table.radius as int) * (
                    table.radius as int),
                    0 <= table.radius as int <= 255,
            ;
        }
        desired.push(Point { x: ac.x + o.x, y: ac.y + o.y, z: ac.z + o.z });
        k = k + 1;
    }
    proof {
        assert forall|k1: int, k2: int|
            0 <= k1 < k2 < desired@.len() implies desired@[k1] != desired@[k2] by {
            if desired@[k1] == desired@[k2] {
                assert(table.offsets@[k1].x == table.offsets@[k2].x);
                assert(table.offsets@[k1].y == table.offsets@[k2].y);
                assert(table.offsets@[k1].z == table.offsets@[k2].z);
                assert(table.offsets@[k1] == (Point {
                    x: table.offsets@[k2].x,
                    y: table.offsets@[k2].y,
                    z: table.offsets@[k2].z,
                }));
                assert(table.offsets@[k1] == table.offsets@[k2]);
            }
        }
        assert forall|c: Point|
            desired@.contains(c) == (dist2_xyz(c.x - ac.x, c.y - ac.y, c.z - ac.z) <= (
            table.radius as int) * (table.radius as int)) by {
            if desired@.contains(c) {
                let k2 = choose|k2: int| 0 <= k2 < desired@.len() && desired@[k2] == c;
                assert(in_radius(table.offsets@[k2], table.radius as int));
                assert(c.x - ac.x == table.offsets@[k2].x);
                assert(c.y - ac.y == table.offsets@[k2].y);
                assert(c.z - ac.z == table.offsets@[k2].z);
            }
            if dist2_xyz(c.x - ac.x, c.y - ac.y, c.z - ac.z) <= (table.radius as int) * (
            table.radius as int) {
                assert(-255 <= c.x - ac.x <= 255 && -255 <= c.y - ac.y <= 255 && -255 <= c.z
                    - ac.z <= 255) by (nonlinear_arith)
                    requires
                        (c.x - ac.x) * (c.x - ac.x) + (c.y - ac.y) * (c.y - ac.y) + (c.z - ac.z)
                            * (c.z - ac.z) <= (table.radius as int) * (table.radius as int),
                        0 <= table.radius as int <= 255,
                ;
                let o = Point {
                    x: (c.x - ac.x) as i32,
                    y: (c.y - ac.y) as i32,
                    z: (c.z - ac.z) as i32,
                };
                assert(in_radius(o, table.radius as int));
                assert(table.offsets@.contains(o));
                let k2 = choose|k2: int|
                    0 <= k2 < table.offsets@.len() && table.offsets@[k2] == o;
                assert(desired@[k2].x == c.x && desired@[k2].y == c.y && desired@[k2].z == c.z);
                assert(desired@[k2] == c);
            }
        }
    }
    desired
}

/// `c` was released by one of the first `k` stale claims and no anchor
/// claims it any more.
spec fn released_prefix(
    stale: Seq<Point>,
    desired: Seq<Point>,
    anchors: Seq<ChunkAnchor>,
    k: int,
    c: Point,
) -> bool {
    exists|k2: int|
        0 <= k2 < k && stale[k2] == c && !desired.contains(c) && !any_claims(anchors, c)
}

/// How one step of the release loop extends the released set.
proof fn lemma_released_prefix_step(
    stale: Seq<Point>,
    desired: Seq<Point>,
    anchors: Seq<ChunkAnchor>,
    k: int,
    c: Point,
)
    requires
        0 <= k < stale.len(),
    ensures
        released_prefix(stale, desired, anchors, k + 1, c) == (released_prefix(
            stale,
            desired,
            anchors,
            k,
            c,
        ) || (c == stale[k] && !desired.contains(c) && !any_claims(anchors, c))),
{
    if released_prefix(stale, desired, anchors, k + 1, c) {
        let k2 = choose|k2: int|
            0 <= k2 < k + 1 && stale[k2] == c && !desired.contains(c) && !any_claims(anchors, c);
        if k2 < k {
            assert(released_prefix(stale, desired, anchors, k, c));
        }
    }
    if released_prefix(stale, desired, anchors, k, c) {
        let k2 = choose|k2: int|
            0 <= k2 < k && stale[k2] == c && !desired.contains(c) && !any_claims(anchors, c);
        assert(0 <= k2 < k + 1 && stale[k2] == c);
    }
}

/// A mutable borrow of one anchor of the list.
fn anchor_mut(v: &mut Vec<ChunkAnchor>, i: usize) -> (e: &mut ChunkAnchor)
    requires
        i < old(v)@.len(),
    ensures
        *e == old(v)@[i as int],
        final(v)@ == old(v)@.update(i as int, *final(e)),
{
    &mut v[i]
}

/// One scheduling pass: walks every anchor, claims and synchronously
/// loads the missing chunks inside its radius nearest first while the
/// shared generation budget lasts, releases claims that left the radius,
/// and unloads chunks that no anchor claims any more. Returns the load
/// and unload events of the pass, in order.
pub fn load_chunks<T: BlockData, G: WorldGenerator<T>>(
    world: &mut VoxelWorld<T>,
    anchors: &mut Vec<ChunkAnchor>,
    generator: &G,
    cache: &mut OffsetTableCache,
    max_radius: u8,
    budget: usize,
) -> (events: (Vec<ChunkLoadEvent>, Vec<ChunkUnloadEvent>))
    requires
        old(world).wf(),
        old(cache).wf(),
        claims_wf(old(anchors)@, *old(world)),
    ensures
        final(world).wf(),
        final(cache).wf(),
        claims_wf(final(anchors)@, *final(world)),
        final(anchors)@.len() == old(anchors)@.len(),
        forall|i: int|
            0 <= i < old(anchors)@.len() ==> (#[trigger] final(anchors)@[i]).radius == old(anchors)@[i].radius && final(anchors)@[i].center == old(anchors)@[i].center,
        events.0@.len() <= budget,
        forall|i: int, c: Point|
            0 <= i < final(anchors)@.len() && #[trigger] final(anchors)@[i].claims(c)
                ==> desired_spec(final(anchors)@[i], max_radius, c),
        forall|i: int, c: Point|
            0 <= i < old(anchors)@.len() && #[trigger] old(anchors)@[i].claims(c) && desired_spec(
                old(anchors)@[i],
                max_radius,
                c,
            ) ==> final(anchors)@[i].claims(c),
        events.0@.len() < budget ==> forall|i: int, c: Point|
            0 <= i < final(anchors)@.len() && #[trigger] desired_spec(
                final(anchors)@[i],
                max_radius,
                c,
            ) ==> final(anchors)@[i].claims(c),
        forall|c: Point|
            final(world).resident(c) ==> old(world).resident(c) || any_claims(
                final(anchors)@,
                c,
            ),
        forall|c: Point|
            final(world).resident(c) ==> (old(world).resident(c) && final(world).chunk_at(c)
                == old(world).chunk_at(c)) || final(world).chunk_data(c)
                == generator.generate_spec(c),
        forall|i: int, c1: Point, c2: Point|
            0 <= i < old(anchors)@.len() && #[trigger] final(anchors)@[i].claims(c2) && !old(
                anchors,
            )@[i].claims(c2) && #[trigger] desired_spec(old(anchors)@[i], max_radius, c1)
                && anchor_dist2(old(anchors)@[i], c1) < anchor_dist2(old(anchors)@[i], c2)
                ==> final(anchors)@[i].claims(c1),
        forall|k: int|
            0 <= k < events.0@.len() ==> any_claims(
                final(anchors)@,
                (#[trigger] events.0@[k]).chunk,
            ) && final(world).resident(events.0@[k].chunk),
{
    let mut load_events: Vec<ChunkLoadEvent> = Vec::new();
    let mut unload_events: Vec<ChunkUnloadEvent> = Vec::new();
    let mut remaining: usize = budget;
    let n = anchors.len();
    let mut i: usize = 0;
    while i < n
        invariant
            world.wf(),
            cache.wf(),
            claims_wf(anchors@, *world),
            n == anchors@.len(),
            i <= n,
            anchors@.len() == old(anchors)@.len(),
            forall|j: int|
                0 <= j < anchors@.len() ==> (#[trigger] anchors@[j]).radius == old(anchors)@[j].radius && anchors@[j].center == old(anchors)@[j].center,
            forall|j: int| i <= j < anchors@.len() ==> anchors@[j] == old(anchors)@[j],
            remaining <= budget,
            load_events@.len() + remaining == budget,
            forall|j: int, c: Point|
                0 <= j < i && #[trigger] anchors@[j].claims(c) ==> desired_spec(
                    anchors@[j],
                    max_radius,
                    c,
                ),
            forall|j: int, c: Point|
                0 <= j < i && #[trigger] old(anchors)@[j].claims(c) && desired_spec(
                    old(anchors)@[j],
                    max_radius,
                    c,
                ) ==> anchors@[j].claims(c),
            remaining > 0 ==> forall|j: int, c: Point|
                0 <= j < i && #[trigger] desired_spec(anchors@[j], max_radius, c)
                    ==> anchors@[j].claims(c),
            forall|j: int, c1: Point, c2: Point|
                0 <= j < i && #[trigger] anchors@[j].claims(c2) && !old(anchors)@[j].claims(c2)
                    && #[trigger] desired_spec(old(anchors)@[j], max_radius, c1) && anchor_dist2(
                    old(anchors)@[j],
                    c1,
                ) < anchor_dist2(old(anchors)@[j], c2) ==> anchors@[j].claims(c1),
            forall|c: Point|
                world.resident(c) ==> old(world).resident(c) || any_claims(anchors@, c),
            forall|c: Point|
                world.resident(c) ==> (old(world).resident(c) && world.chunk_at(c) == old(
                    world,
                ).chunk_at(c)) || world.chunk_data(c) == generator.generate_spec(c),
            forall|k: int|
                0 <= k < load_events@.len() ==> exists|j0: int|
                    0 <= j0 < i && anchors@[j0].claims((#[trigger] load_events@[k]).chunk),
        decreases n - i,
    {
        let ghost w0 = *world;
        let ghost an0 = anchors@;
        let ghost e1 = load_events@;
        release_anchor_claims(world, anchors, i, cache, max_radius, &mut unload_events);
        let ghost w1 = *world;
        let ghost an1 = anchors@;
        proof {
            assert forall|c: Point|
                w1.resident(c) implies old(world).resident(c) || any_claims(an1, c) by {
                if !old(world).resident(c) {
                    assert(w0.resident(c));
                    assert(any_claims(an0, c));
                    let j = choose|j: int| 0 <= j < an0.len() && (#[trigger] an0[j]).claims(c);
                    if j != i {
                        assert(an1[j] == an0[j]);
                        assert(an1[j].claims(c));
                    } else {
                        if desired_spec(an0[i as int], max_radius, c) {
                            assert(an1[i as int].claims(c));
                        } else {
                            assert(!(an0[i as int].claims(c) && !desired_spec(
                                an0[i as int],
                                max_radius,
                                c,
                            ) && !any_claims(an1, c)));
                        }
                    }
                }
            }
        }
        process_anchor(
            world,
            anchors,
            i,
            generator,
            cache,
            max_radius,
            &mut remaining,
            &mut load_events,
        );
        proof {
            assert forall|c: Point|
                world.resident(c) implies old(world).resident(c) || any_claims(anchors@, c) by {
                if !old(world).resident(c) {
                    if w1.resident(c) {
                        assert(any_claims(an1, c));
                        let j = choose|j: int|
                            0 <= j < an1.len() && (#[trigger] an1[j]).claims(c);
                        if j != i {
                            assert(anchors@[j] == an1[j]);
                            assert(anchors@[j].claims(c));
                        } else {
                            assert(anchors@[i as int].claims(c));
                        }
                    } else {
                        assert(anchors@[i as int].claims(c));
                    }
                }
            }
            assert forall|c: Point|
                world.resident(c) implies (old(world).resident(c) && world.chunk_at(c) == old(
                world,
            ).chunk_at(c)) || world.chunk_data(c) == generator.generate_spec(c) by {
                if w1.resident(c) {
                    assert(world.chunk_at(c) == w1.chunk_at(c));
                    assert(w1.chunk_at(c) == w0.chunk_at(c));
                } else {
                    assert(world.chunk_data(c) == generator.generate_spec(c));
                }
            }
            assert forall|j: int, c: Point|
                0 <= j < i + 1 && #[trigger] anchors@[j].claims(c) implies desired_spec(
                anchors@[j],
                max_radius,
                c,
            ) by {
                if j < i {
                    assert(anchors@[j] == an0[j]);
                } else {
                    assert(an1[i as int].claims(c) || desired_spec(an1[i as int], max_radius, c));
                    if an1[i as int].claims(c) {
                        assert(an0[i as int].claims(c) && desired_spec(
                            an0[i as int],
                            max_radius,
                            c,
                        ));
                    }
                }
            }
            assert forall|j: int, c: Point|
                0 <= j < i + 1 && #[trigger] old(anchors)@[j].claims(c) && desired_spec(
                old(anchors)@[j],
                max_radius,
                c,
            ) implies anchors@[j].claims(c) by {
                if j < i {
                    assert(anchors@[j] == an0[j]);
                } else {
                    assert(an0[i as int] == old(anchors)@[i as int]);
                    assert(an1[i as int].claims(c));
                    assert(anchors@[i as int].claims(c));
                }
            }
            assert forall|c1: Point, c2: Point|
                #[trigger] anchors@[i as int].claims(c2) && !old(anchors)@[i as int].claims(c2)
                    && #[trigger] desired_spec(old(anchors)@[i as int], max_radius, c1)
                    && anchor_dist2(old(anchors)@[i as int], c1) < anchor_dist2(
                    old(anchors)@[i as int],
                    c2,
                ) implies anchors@[i as int].claims(c1) by {
                assert(an0[i as int] == old(anchors)@[i as int]);
                assert(!an1[i as int].claims(c2));
                assert(anchors@[i as int].claims(c2) && !an1[i as int].claims(c2));
                assert(desired_spec(an1[i as int], max_radius, c1));
                assert(anchor_dist2(an1[i as int], c1) < anchor_dist2(an1[i as int], c2));
            }
            assert forall|k: int|
                0 <= k < load_events@.len() implies exists|j0: int|
                    0 <= j0 < i + 1 && anchors@[j0].claims(
                        (#[trigger] load_events@[k]).chunk,
                    ) by {
                if k < e1.len() {
                    assert(load_events@[k] == e1[k]);
                    let j0 = choose|j0: int|
                        0 <= j0 < i && an0[j0].claims((#[trigger] e1[k]).chunk);
                    assert(anchors@[j0] == an0[j0]);
                    assert(anchors@[j0].claims(load_events@[k].chunk));
                } else {
                    assert(!w1.resident(load_events@[k].chunk));
                    assert(world.resident(load_events@[k].chunk));
                    assert(anchors@[i as int].claims(load_events@[k].chunk));
                }
            }
            if remaining > 0 {
                assert forall|j: int, c: Point|
                    0 <= j < i + 1 && #[trigger] desired_spec(anchors@[j], max_radius, c) implies anchors@[j].claims(c) by {
                    if j < i {
                        assert(anchors@[j] == an0[j]);
                        assert(desired_spec(an0[j], max_radius, c));
                    } else {
                        assert(desired_spec(an1[i as int], max_radius, c));
                        assert(anchors@[i as int].claims(c));
                    }
                }
            }
        }
        i = i + 1;
    }
    proof {
        assert forall|k: int|
            0 <= k < load_events@.len() implies any_claims(
                anchors@,
                (#[trigger] load_events@[k]).chunk,
            ) && world.resident(load_events@[k].chunk) by {
            let j0 = choose|j0: int|
                0 <= j0 < n && anchors@[j0].claims((#[trigger] load_events@[k]).chunk);
            assert(any_claims(anchors@, load_events@[k].chunk));
        }
    }
    (load_events, unload_events)
}


/// Releases the claims of anchor `idx` that left its radius: its claims
/// shrink to the desired set, and a released chunk that no anchor claims
/// any more is unloaded with one unload event.
fn release_anchor_claims<T: BlockData>(
    world: &mut VoxelWorld<T>,
    anchors: &mut Vec<ChunkAnchor>,
    idx: usize,
    cache: &mut OffsetTableCache,
    max_radius: u8,
    unload_events: &mut Vec<ChunkUnloadEvent>,
)
    requires
        old(world).wf(),
        old(cache).wf(),
        idx < old(anchors)@.len(),
        claims_wf(old(anchors)@, *old(world)),
    ensures
        final(world).wf(),
        final(cache).wf(),
        claims_wf(final(anchors)@, *final(world)),
        final(anchors)@.len() == old(anchors)@.len(),
        forall|j: int|
            0 <= j < old(anchors)@.len() && j != idx ==> final(anchors)@[j] == old(anchors)@[j],
        final(anchors)@[idx as int].radius == old(anchors)@[idx as int].radius,
        final(anchors)@[idx as int].center == old(anchors)@[idx as int].center,
        forall|c: Point|
            final(anchors)@[idx as int].claims(c) == (old(anchors)@[idx as int].claims(c)
                && desired_spec(old(anchors)@[idx as int], max_radius, c)),
        forall|c: Point|
            final(world).resident(c) == (old(world).resident(c) && !(old(anchors)@[idx as int].claims(c) && !desired_spec(old(anchors)@[idx as int], max_radius, c)
                && !any_claims(final(anchors)@, c))),
        forall|c: Point|
            final(world).resident(c) ==> final(world).chunk_at(c) == old(world).chunk_at(c),
        old(unload_events)@.len() <= final(unload_events)@.len(),
        forall|k: int|
            0 <= k < old(unload_events)@.len() ==> final(unload_events)@[k] == old(unload_events)@[k],
        forall|k: int|
            old(unload_events)@.len() <= k < final(unload_events)@.len() ==> old(world).resident(
                (#[trigger] final(unload_events)@[k]).chunk,
            ) && !final(world).resident(final(unload_events)@[k].chunk),
{
    let ghost a0 = old(anchors)@[idx as int];
    let rad = {
        let r = anchors[idx].radius;
        if r <= max_radius {
            r
        } else {
            max_radius
        }
    };
    cache.ensure(rad);
    let ac = {
        let center = anchors[idx].center;
        center.chunk_coord()
    };
    proof {
        crate::coords::lemma_point_round_trip(a0.center);
    }
    let desired = build_desired(ac, cache.table(rad));
    proof {
        assert forall|c: Point| desired@.contains(c) == desired_spec(a0, max_radius, c) by {}
    }
    let stale = copy_points(&anchors[idx].claimed);
    // keep = claims that are still desired
    let mut keep: Vec<Point> = Vec::new();
    let sn = stale.len();
    let mut k: usize = 0;
    while k < sn
        invariant
            sn == stale@.len(),
            k <= sn,
            stale@ == a0.claimed@,
            a0.wf(),
            forall|m: int|
                0 <= m < keep@.len() ==> exists|j: int|
                    0 <= j < k && stale@[j] == #[trigger] keep@[m] && desired@.contains(keep@[m]),
            forall|j: int|
                0 <= j < k && desired@.contains(#[trigger] stale@[j]) ==> keep@.contains(
                    stale@[j],
                ),
            forall|m1: int, m2: int| 0 <= m1 < m2 < keep@.len() ==> keep@[m1] != keep@[m2],
        decreases sn - k,
    {
        let c = stale[k];
        if contains_point(&desired, c) {
            let ghost prev = keep@;
            proof {
                assert forall|m: int| 0 <= m < prev.len() implies prev[m] != c by {
                    let j = choose|j: int|
                        0 <= j < k && stale@[j] == prev[m] && desired@.contains(prev[m]);
                    if prev[m] == c {
                        assert(a0.claimed@[j] == a0.claimed@[k as int]);
                    }
                }
            }
            keep.push(c);
            proof {
                assert forall|j: int|
                    0 <= j < k + 1 && desired@.contains(#[trigger] stale@[j]) implies keep@.contains(
                    stale@[j],
                ) by {
                    if j < k {
                        let m = choose|m: int| 0 <= m < prev.len() && prev[m] == stale@[j];
                        assert(keep@[m] == stale@[j]);
                    } else {
                        assert(keep@[prev.len() as int] == c);
                    }
                }
            }
        }
        k = k + 1;
    }
    proof {
        assert forall|c: Point|
            keep@.contains(c) == (a0.claims(c) && desired@.contains(c)) by {
            if keep@.contains(c) {
                let m = choose|m: int| 0 <= m < keep@.len() && keep@[m] == c;
                let j = choose|j: int|
                    0 <= j < sn && stale@[j] == keep@[m] && desired@.contains(keep@[m]);
                assert(a0.claimed@[j] == c);
            }
            if a0.claims(c) && desired@.contains(c) {
                let j = choose|j: int| 0 <= j < a0.claimed@.len() && a0.claimed@[j] == c;
                assert(stale@[j] == c);
            }
        }
    }
    let ghost keepseq = keep@;
    let am = anchor_mut(anchors, idx);
    am.claimed = keep;
    proof {
        assert(anchors@[idx as int].claimed@ == keepseq);
        assert(anchors@[idx as int].radius == a0.radius && anchors@[idx as int].center
            == a0.center);
        assert forall|c: Point| anchors@[idx as int].claims(c) == (a0.claims(c)
            && desired_spec(a0, max_radius, c)) by {
            assert(anchors@[idx as int].claims(c) == keepseq.contains(c));
            assert(keepseq.contains(c) == (a0.claims(c) && desired@.contains(c)));
        }
        assert forall|j: int, c: Point|
            0 <= j < anchors@.len() && #[trigger] anchors@[j].claims(c) implies old(world).resident(c) by {
            if j != idx {
                assert(anchors@[j] == old(anchors)@[j]);
            } else {
                assert(a0.claims(c));
            }
        }
        assert forall|j: int| 0 <= j < anchors@.len() implies (#[trigger] anchors@[j]).wf() by {
            if j != idx {
                assert(anchors@[j] == old(anchors)@[j]);
            } else {
                assert(forall|m1: int, m2: int|
                    0 <= m1 < m2 < keepseq.len() ==> keepseq[m1] != keepseq[m2]);
            }
        }
    }
    // unload the released chunks nobody claims any more
    let mut k2: usize = 0;
    let ghost base_events = unload_events@;
    while k2 < sn
        invariant
            world.wf(),
            sn == stale@.len(),
            k2 <= sn,
            stale@ == a0.claimed@,
            a0.wf(),
            forall|c: Point| #[trigger] a0.claims(c) ==> old(world).resident(c),
            anchors@.len() == old(anchors)@.len(),
            idx < anchors@.len(),
            forall|j: int|
                0 <= j < old(anchors)@.len() && j != idx ==> anchors@[j] == old(anchors)@[j],
            anchors@[idx as int].radius == a0.radius,
            anchors@[idx as int].center == a0.center,
            forall|c: Point|
                anchors@[idx as int].claims(c) == (a0.claims(c) && desired_spec(
                    a0,
                    max_radius,
                    c,
                )),
            forall|c: Point| desired@.contains(c) == desired_spec(a0, max_radius, c),
            forall|j: int, c: Point|
                0 <= j < anchors@.len() && #[trigger] anchors@[j].claims(c) ==> old(world).resident(c),
            forall|j: int| 0 <= j < anchors@.len() ==> (#[trigger] anchors@[j]).wf(),
            forall|c: Point|
                world.resident(c) == (old(world).resident(c) && !released_prefix(
                    stale@,
                    desired@,
                    anchors@,
                    k2 as int,
                    c,
                )),
            forall|c: Point| world.resident(c) ==> world.chunk_at(c) == old(world).chunk_at(c),
            base_events.len() <= unload_events@.len(),
            forall|m: int| 0 <= m < base_events.len() ==> unload_events@[m] == base_events[m],
            forall|m: int|
                base_events.len() <= m < unload_events@.len() ==> old(world).resident(
                    (#[trigger] unload_events@[m]).chunk,
                ) && !world.resident(unload_events@[m].chunk) && released_prefix(
                    stale@,
                    desired@,
                    anchors@,
                    k2 as int,
                    unload_events@[m].chunk,
                ),
        decreases sn - k2,
    {
        let c = stale[k2];
        let ghost prev_events = unload_events@;
        if !contains_point(&desired, c) && !any_claims_exec(anchors, c) {
            proof {
                assert(a0.claimed@[k2 as int] == c);
                assert(a0.claims(c));
                assert(old(world).resident(c));
                assert(!released_prefix(stale@, desired@, anchors@, k2 as int, c)) by {
                    if released_prefix(stale@, desired@, anchors@, k2 as int, c) {
                        let j = choose|j: int|
                            0 <= j < k2 && stale@[j] == c && !desired@.contains(c) && !any_claims(
                                anchors@,
                                c,
                            );
                        assert(a0.claimed@[j] == a0.claimed@[k2 as int]);
                    }
                }
                assert(world.resident(c));
            }
            let ev = world.unload_chunk(c);
            match ev {
                Some(e) => unload_events.push(e),
                None => {
                    proof {
                        assert(false);
                    }
                },
            }
            proof {
                assert forall|c2: Point|
                    world.resident(c2) == (old(world).resident(c2) && !released_prefix(
                    stale@,
                    desired@,
                    anchors@,
                    k2 as int + 1,
                    c2,
                )) by {
                    lemma_released_prefix_step(stale@, desired@, anchors@, k2 as int, c2);
                }
                assert forall|m: int|
                    base_events.len() <= m < unload_events@.len() implies old(world).resident(
                    (#[trigger] unload_events@[m]).chunk,
                ) && !world.resident(unload_events@[m].chunk) && released_prefix(
                    stale@,
                    desired@,
                    anchors@,
                    k2 as int + 1,
                    unload_events@[m].chunk,
                ) by {
                    lemma_released_prefix_step(
                        stale@,
                        desired@,
                        anchors@,
                        k2 as int,
                        unload_events@[m].chunk,
                    );
                    if m < prev_events.len() {
                        assert(unload_events@[m] == prev_events[m]);
                    } else {
                        assert(unload_events@[m].chunk == c);
                    }
                }
            }
        } else {
            proof {
                assert forall|c2: Point|
                    #[trigger] released_prefix(stale@, desired@, anchors@, k2 as int + 1, c2)
                        == released_prefix(stale@, desired@, anchors@, k2 as int, c2) by {
                    lemma_released_prefix_step(stale@, desired@, anchors@, k2 as int, c2);
                }
                assert forall|c2: Point|
                    world.resident(c2) == (old(world).resident(c2) && !released_prefix(
                    stale@,
                    desired@,
                    anchors@,
                    k2 as int + 1,
                    c2,
                )) by {
                    lemma_released_prefix_step(stale@, desired@, anchors@, k2 as int, c2);
                }
                assert forall|m: int|
                    base_events.len() <= m < unload_events@.len() implies old(world).resident(
                    (#[trigger] unload_events@[m]).chunk,
                ) && !world.resident(unload_events@[m].chunk) && released_prefix(
                    stale@,
                    desired@,
                    anchors@,
                    k2 as int + 1,
                    unload_events@[m].chunk,
                ) by {
                    lemma_released_prefix_step(
                        stale@,
                        desired@,
                        anchors@,
                        k2 as int,
                        unload_events@[m].chunk,
                    );
                }
            }
        }
        k2 = k2 + 1;
    }
    proof {
        assert forall|c: Point|
            world.resident(c) == (old(world).resident(c) && !(a0.claims(c) && !desired_spec(
                a0,
                max_radius,
                c,
            ) && !any_claims(anchors@, c))) by {
            if a0.claims(c) && !desired@.contains(c) && !any_claims(anchors@, c) {
                let j = choose|j: int| 0 <= j < a0.claimed@.len() && a0.claimed@[j] == c;
                assert(stale@[j] == c);
                assert(released_prefix(stale@, desired@, anchors@, sn as int, c));
            }
            if released_prefix(stale@, desired@, anchors@, sn as int, c) {
                let j = choose|j: int|
                    0 <= j < sn && stale@[j] == c && !desired@.contains(c) && !any_claims(
                        anchors@,
                        c,
                    );
                assert(a0.claimed@[j] == c);
                assert(a0.claims(c));
            }
        }
        assert forall|j: int, c: Point|
            0 <= j < anchors@.len() && #[trigger] anchors@[j].claims(c) implies world.resident(
            c,
        ) by {
            assert(any_claims(anchors@, c));
            assert(old(world).resident(c));
        }
    }
}

/// Claims and loads the missing desired chunks of anchor `idx`, nearest
/// first, while the shared generation budget lasts. Chunks that are
/// already resident are claimed without spending budget; each actual
/// generation emits one load event and costs one unit.
fn process_anchor<T: BlockData, G: WorldGenerator<T>>(
    world: &mut VoxelWorld<T>,
    anchors: &mut Vec<ChunkAnchor>,
    idx: usize,
    generator: &G,
    cache: &mut OffsetTableCache,
    max_radius: u8,
    remaining: &mut usize,
    load_events: &mut Vec<ChunkLoadEvent>,
)
    requires
        old(world).wf(),
        old(cache).wf(),
        idx < old(anchors)@.len(),
        claims_wf(old(anchors)@, *old(world)),
    ensures
        final(world).wf(),
        final(cache).wf(),
        claims_wf(final(anchors)@, *final(world)),
        final(anchors)@.len() == old(anchors)@.len(),
        forall|j: int|
            0 <= j < old(anchors)@.len() && j != idx ==> final(anchors)@[j] == old(anchors)@[j],
        final(anchors)@[idx as int].radius == old(anchors)@[idx as int].radius,
        final(anchors)@[idx as int].center == old(anchors)@[idx as int].center,
        forall|c: Point|
            #[trigger] old(anchors)@[idx as int].claims(c) ==> final(anchors)@[idx as int].claims(
                c,
            ),
        forall|c: Point|
            #[trigger] final(anchors)@[idx as int].claims(c) ==> old(anchors)@[idx as int].claims(
                c,
            ) || desired_spec(old(anchors)@[idx as int], max_radius, c),
        *final(remaining) <= *old(remaining),
        old(load_events)@.len() + *old(remaining) == final(load_events)@.len()
            + *final(remaining),
        forall|k: int|
            0 <= k < old(load_events)@.len() ==> final(load_events)@[k] == old(load_events)@[k],
        forall|k: int|
            old(load_events)@.len() <= k < final(load_events)@.len() ==> !old(world).resident(
                (#[trigger] final(load_events)@[k]).chunk,
            ) && final(world).resident(final(load_events)@[k].chunk),
        *final(remaining) > 0 ==> forall|c: Point|
            #[trigger] desired_spec(old(anchors)@[idx as int], max_radius, c) ==> final(anchors)@[idx as int].claims(c),
        forall|c: Point| old(world).resident(c) ==> final(world).resident(c),
        forall|c: Point|
            final(world).resident(c) ==> old(world).resident(c) || final(anchors)@[idx as int].claims(c),
        forall|c: Point|
            old(world).resident(c) ==> final(world).chunk_at(c) == old(world).chunk_at(c),
        forall|c: Point|
            !old(world).resident(c) && final(world).resident(c) ==> final(world).chunk_data(c)
                == generator.generate_spec(c),
        forall|c1: Point, c2: Point|
            #[trigger] final(anchors)@[idx as int].claims(c2) && !old(
                anchors,
            )@[idx as int].claims(c2) && #[trigger] desired_spec(
                old(anchors)@[idx as int],
                max_radius,
                c1,
            ) && anchor_dist2(old(anchors)@[idx as int], c1) < anchor_dist2(
                old(anchors)@[idx as int],
                c2,
            ) ==> final(anchors)@[idx as int].claims(c1),
{
    let ghost a0 = old(anchors)@[idx as int];
    let rad = {
        let r = anchors[idx].radius;
        if r <= max_radius {
            r
        } else {
            max_radius
        }
    };
    cache.ensure(rad);
    let ac = {
        let center = anchors[idx].center;
        center.chunk_coord()
    };
    proof {
        crate::coords::lemma_point_round_trip(a0.center);
    }
    let table = cache.table(rad);
    let ghost tbl = *table;
    let desired = build_desired(ac, table);
    proof {
        assert forall|c: Point| desired@.contains(c) == desired_spec(a0, max_radius, c) by {}
        assert forall|k: int|
            0 <= k < desired@.len() implies anchor_dist2(a0, #[trigger] desired@[k]) == dist2(
            tbl.offsets@[k],
        ) by {
            assert(desired@[k].x - ac.x == tbl.offsets@[k].x);
            assert(desired@[k].y - ac.y == tbl.offsets@[k].y);
            assert(desired@[k].z - ac.z == tbl.offsets@[k].z);
        }
        assert forall|k1: int, k2: int|
            0 <= k1 < k2 < desired@.len() implies anchor_dist2(a0, desired@[k1]) <= anchor_dist2(
            a0,
            desired@[k2],
        ) by {
            assert(dist2(tbl.offsets@[k1]) <= dist2(tbl.offsets@[k2]));
        }
    }
    let mut added: Vec<Point> = Vec::new();
    let dn = desired.len();
    let mut j: usize = 0;
    while j < dn
        invariant
            world.wf(),
            claims_wf(anchors@, *world),
            anchors@ == old(anchors)@,
            idx < anchors@.len(),
            a0 == anchors@[idx as int],
            a0.wf(),
            dn == desired@.len(),
            j <= dn,
            forall|k1: int, k2: int| 0 <= k1 < k2 < dn ==> desired@[k1] != desired@[k2],
            forall|m: int|
                0 <= m < added@.len() ==> exists|j2: int|
                    0 <= j2 < j && desired@[j2] == #[trigger] added@[m],
            forall|m: int| 0 <= m < added@.len() ==> !a0.claims(#[trigger] added@[m]),
            forall|m1: int, m2: int| 0 <= m1 < m2 < added@.len() ==> added@[m1] != added@[m2],
            forall|m: int| 0 <= m < added@.len() ==> world.resident(#[trigger] added@[m]),
            *remaining <= *old(remaining),
            load_events@.len() + *remaining == old(load_events)@.len() + *old(remaining),
            forall|k: int|
                0 <= k < old(load_events)@.len() ==> load_events@[k] == old(load_events)@[k],
            forall|k: int|
                old(load_events)@.len() <= k < load_events@.len() ==> !old(world).resident(
                    (#[trigger] load_events@[k]).chunk,
                ) && world.resident(load_events@[k].chunk),
            *remaining > 0 ==> forall|j2: int|
                0 <= j2 < j ==> a0.claims(#[trigger] desired@[j2]) || added@.contains(
                    desired@[j2],
                ),
            forall|j1: int, j2: int|
                0 <= j1 < j2 < j && added@.contains(#[trigger] desired@[j2]) ==> a0.claims(
                    #[trigger] desired@[j1],
                ) || added@.contains(desired@[j1]),
            forall|c: Point| old(world).resident(c) ==> world.resident(c),
            forall|c: Point|
                world.resident(c) ==> old(world).resident(c) || added@.contains(c),
            forall|c: Point|
                old(world).resident(c) ==> world.chunk_at(c) == old(world).chunk_at(c),
            forall|c: Point|
                !old(world).resident(c) && world.resident(c) ==> world.chunk_data(c)
                    == generator.generate_spec(c),
        decreases dn - j,
    {
        let c = desired[j];
        let ghost prev_added = added@;
        let was_claimed = contains_point(&anchors[idx].claimed, c);
        if !was_claimed {
            proof {
                assert forall|m: int| 0 <= m < added@.len() implies added@[m] != c by {
                    let j2 = choose|j2: int| 0 <= j2 < j && desired@[j2] == added@[m];
                    assert(desired@[j2] != desired@[j as int] || j2 == j);
                }
            }
            if *remaining > 0 {
                let ghost prev_events = load_events@;
                let ev = world.load_chunk(c, generator);
                match ev {
                    Some(e) => {
                        load_events.push(e);
                        *remaining = *remaining - 1;
                    },
                    None => {},
                }
                added.push(c);
                proof {
                    assert(added@[prev_added.len() as int] == c);
                    assert(added@.contains(c));
                    assert forall|k: int|
                        old(load_events)@.len() <= k < load_events@.len() implies !old(world).resident((#[trigger] load_events@[k]).chunk) && world.resident(
                        load_events@[k].chunk,
                    ) by {
                        if k < prev_events.len() {
                            assert(load_events@[k] == prev_events[k]);
                        } else {
                            assert(load_events@[k].chunk == c);
                        }
                    }
                    assert forall|c2: Point|
                        world.resident(c2) implies old(world).resident(c2) || added@.contains(
                        c2,
                    ) by {
                        if c2 != c && prev_added.contains(c2) {
                            let m = choose|m: int|
                                0 <= m < prev_added.len() && prev_added[m] == c2;
                            assert(added@[m] == c2);
                        }
                    }
                }
            }
        }
        proof {
            assert forall|j1: int, j2: int|
                0 <= j1 < j2 < j + 1 && added@.contains(#[trigger] desired@[j2]) implies a0.claims(
                #[trigger] desired@[j1],
            ) || added@.contains(desired@[j1]) by {
                if j2 < j {
                    if added@.contains(desired@[j2]) {
                        if !prev_added.contains(desired@[j2]) {
                            assert(added@[added@.len() - 1] == desired@[j2]);
                            assert(prev_added.contains(desired@[j2]) || desired@[j2] == desired@[j as int]);
                        }
                        if prev_added.contains(desired@[j2]) {
                            if !a0.claims(desired@[j1]) {
                                assert(prev_added.contains(desired@[j1]));
                                let m = choose|m: int|
                                    0 <= m < prev_added.len() && prev_added[m] == desired@[j1];
                                assert(added@[m] == desired@[j1]);
                            }
                        }
                    }
                } else {
                    if added@.contains(desired@[j as int]) && !prev_added.contains(
                        desired@[j as int],
                    ) {
                        if !a0.claims(desired@[j1]) {
                            assert(prev_added.contains(desired@[j1]));
                            let m = choose|m: int|
                                0 <= m < prev_added.len() && prev_added[m] == desired@[j1];
                            assert(added@[m] == desired@[j1]);
                        }
                    } else if prev_added.contains(desired@[j as int]) {
                        assert(false);
                    }
                }
            }
            if *remaining > 0 {
                assert forall|j2: int|
                    0 <= j2 < j + 1 implies a0.claims(#[trigger] desired@[j2])
                        || added@.contains(desired@[j2]) by {
                    if j2 == j {
                        if was_claimed {
                            assert(a0.claims(c));
                        } else {
                            assert(added@.contains(c));
                        }
                    } else {
                        if !a0.claims(desired@[j2]) {
                            assert(prev_added.contains(desired@[j2]));
                            let m = choose|m: int|
                                0 <= m < prev_added.len() && prev_added[m] == desired@[j2];
                            assert(added@[m] == desired@[j2]);
                        }
                    }
                }
            }
            assert forall|c2: Point|
                world.resident(c2) implies old(world).resident(c2) || added@.contains(c2) by {
                if !old(world).resident(c2) && prev_added.contains(c2) {
                    let m = choose|m: int| 0 <= m < prev_added.len() && prev_added[m] == c2;
                    assert(added@[m] == c2);
                }
            }
            assert forall|m: int| 0 <= m < added@.len() implies world.resident(
                #[trigger] added@[m],
            ) by {}
        }
        j = j + 1;
    }
    // record the new claims on the anchor
    let an = added.len();
    let am = anchor_mut(anchors, idx);
    let mut t: usize = 0;
    while t < an
        invariant
            an == added@.len(),
            t <= an,
            am.radius == a0.radius,
            am.center == a0.center,
            am.claimed@ == a0.claimed@ + added@.subrange(0, t as int),
            a0.wf(),
            forall|m: int| 0 <= m < added@.len() ==> !a0.claims(#[trigger] added@[m]),
            forall|m1: int, m2: int| 0 <= m1 < m2 < added@.len() ==> added@[m1] != added@[m2],
        decreases an - t,
    {
        am.claimed.push(added[t]);
        proof {
            assert(am.claimed@ =~= a0.claimed@ + added@.subrange(0, t as int + 1));
        }
        t = t + 1;
    }
    proof {
        assert(added@.subrange(0, an as int) =~= added@);
        assert(am.claimed@ == a0.claimed@ + added@);
    }
    proof {
        assert(anchors@[idx as int].claimed@ == a0.claimed@ + added@);
        assert(anchors@[idx as int].radius == a0.radius && anchors@[idx as int].center
            == a0.center);
        assert forall|c: Point|
            anchors@[idx as int].claims(c) == (a0.claims(c) || added@.contains(c)) by {
            let cat = a0.claimed@ + added@;
            if cat.contains(c) {
                let m = choose|m: int| 0 <= m < cat.len() && cat[m] == c;
                if m < a0.claimed@.len() {
                    assert(a0.claimed@[m] == c);
                } else {
                    assert(added@[m - a0.claimed@.len()] == c);
                }
            }
            if a0.claims(c) {
                let m = choose|m: int| 0 <= m < a0.claimed@.len() && a0.claimed@[m] == c;
                assert(cat[m] == c);
            }
            if added@.contains(c) {
                let m = choose|m: int| 0 <= m < added@.len() && added@[m] == c;
                assert(cat[a0.claimed@.len() + m] == c);
            }
        }
        assert forall|j2: int, c: Point|
            0 <= j2 < anchors@.len() && #[trigger] anchors@[j2].claims(c) implies world.resident(
            c,
        ) by {
            if j2 != idx {
                assert(anchors@[j2] == old(anchors)@[j2]);
            } else {
                if a0.claims(c) {
                    assert(old(anchors)@[idx as int].claims(c));
                }
            }
        }
        assert forall|j2: int| 0 <= j2 < anchors@.len() implies (#[trigger] anchors@[j2]).wf() by {
            if j2 != idx {
                assert(anchors@[j2] == old(anchors)@[j2]);
            } else {
                let cl = anchors@[idx as int].claimed@;
                assert forall|m1: int, m2: int| 0 <= m1 < m2 < cl.len() implies cl[m1]
                    != cl[m2] by {
                    if m2 < a0.claimed@.len() {
                        assert(cl[m1] == a0.claimed@[m1] && cl[m2] == a0.claimed@[m2]);
                    } else if m1 < a0.claimed@.len() {
                        assert(cl[m1] == a0.claimed@[m1]);
                        assert(cl[m2] == added@[m2 - a0.claimed@.len()]);
                        assert(!a0.claims(added@[m2 - a0.claimed@.len()]));
                        if cl[m1] == cl[m2] {
                            assert(a0.claimed@.contains(cl[m2]));
                        }
                    } else {
                        assert(cl[m1] == added@[m1 - a0.claimed@.len()]);
                        assert(cl[m2] == added@[m2 - a0.claimed@.len()]);
                    }
                }
            }
        }
        assert forall|c: Point|
            #[trigger] desired_spec(a0, max_radius, c) && *remaining > 0 implies anchors@[idx as int].claims(c) by {
            assert(desired@.contains(c));
            let j2 = choose|j2: int| 0 <= j2 < desired@.len() && desired@[j2] == c;
            assert(a0.claims(desired@[j2]) || added@.contains(desired@[j2]));
        }
        assert forall|c: Point|
            world.resident(c) implies old(world).resident(c) || anchors@[idx as int].claims(
            c,
        ) by {
            if !old(world).resident(c) {
                assert(added@.contains(c));
            }
        }
        assert forall|c: Point|
            #[trigger] anchors@[idx as int].claims(c) implies old(anchors)@[idx as int].claims(c)
                || desired_spec(a0, max_radius, c) by {
            if !a0.claims(c) {
                assert(added@.contains(c));
                let m = choose|m: int| 0 <= m < added@.len() && added@[m] == c;
                let j2 = choose|j2: int| 0 <= j2 < dn && desired@[j2] == added@[m];
                assert(desired@.contains(c));
            }
        }
    }
}

} // verus!
