//! Occlusion-culled mesh extraction.
//!
//! The mesh pass walks a region of the world and emits one quad per
//! visible block face. A face is emitted exactly when the block has
//! renderable geometry and the neighboring block across that face — which
//! may live in an adjacent chunk — is resident and does not occlude the
//! shared face. A face against an unloaded chunk is withheld, so no walls
//! of geometry appear at the streaming frontier; a region with nothing
//! visible yields an empty mesh, which is a valid result, not an error.

use crate::block::BlockData;
use crate::block::Face;
use crate::coords::Point;
use crate::region::Region;
use crate::world::VoxelWorld;
use vstd::prelude::*;

verus! {

/// One emitted quad: the face of one block.
#[derive(Clone, Copy, PartialEq, Eq, Structural, Debug)]
pub struct MeshFace {
    pub position: Point,
    pub face: Face,
}

/// The geometry extracted from one region.
pub struct Mesh {
    pub faces: Vec<MeshFace>,
}

/// The world coordinate of the neighbor across face `f` of the block at
/// `p`.
pub open spec fn neighbor_spec(p: Point, f: Face) -> Point
    recommends
        -2147483648 < p.x < 2147483647,
        -2147483648 < p.y < 2147483647,
        -2147483648 < p.z < 2147483647,
{
    Point {
        x: (p.x + f.step_spec().0) as i32,
        y: (p.y + f.step_spec().1) as i32,
        z: (p.z + f.step_spec().2) as i32,
    }
}

/// The face-culling rule: face `f` of the block at `p` is part of the
/// mesh exactly when `p` holds a renderable block and the neighbor across
/// `f` is resident and does not occlude the shared face.
pub open spec fn visible_face_spec<T: BlockData>(world: VoxelWorld<T>, p: Point, f: Face) -> bool {
    &&& world.block_at(p) is Some
    &&& world.block_at(p).unwrap().visible_spec()
    &&& world.block_at(neighbor_spec(p, f)) is Some
    &&& !world.block_at(neighbor_spec(p, f)).unwrap().occlusion_spec().get_spec(
        f.opposite_spec(),
    )
}

/// True when the face list holds the face `f` of the block at `p`.
pub open spec fn has_face(faces: Seq<MeshFace>, p: Point, f: Face) -> bool {
    faces.contains(MeshFace { position: p, face: f })
}

/// Whether face `f` of the block at `p` belongs to the mesh.
pub fn face_visible<T: BlockData>(world: &VoxelWorld<T>, p: Point, f: Face) -> (b: bool)
    requires
        world.wf(),
        -2147483648 < p.x < 2147483647,
        -2147483648 < p.y < 2147483647,
        -2147483648 < p.z < 2147483647,
    ensures
        b == visible_face_spec(*world, p, f),
{
    match world.get_block(p) {
        None => false,
        Some(b) => {
            if !b.visible() {
                false
            } else {
                let s = f.step();
                let n = Point { x: p.x + s.0, y: p.y + s.1, z: p.z + s.2 };
                match world.get_block(n) {
                    None => false,
                    Some(nb) => !nb.occlusion().get(f.opposite()),
                }
            }
        },
    }
}

/// The six faces, each exactly once.
fn all_faces() -> (v: Vec<Face>)
    ensures
        v@.len() == 6,
        v@[0] == Face::PosX,
        v@[1] == Face::NegX,
        v@[2] == Face::PosY,
        v@[3] == Face::NegY,
        v@[4] == Face::PosZ,
        v@[5] == Face::NegZ,
        forall|k1: int, k2: int| 0 <= k1 < k2 < 6 ==> v@[k1] != v@[k2],
        forall|f: Face| v@.contains(f),
{
    let mut v: Vec<Face> = Vec::new();
    v.push(Face::PosX);
    v.push(Face::NegX);
    v.push(Face::PosY);
    v.push(Face::NegY);
    v.push(Face::PosZ);
    v.push(Face::NegZ);
    proof {
        assert forall|f: Face| v@.contains(f) by {
            match f {
                Face::PosX => assert(v@[0] == f),
                Face::NegX => assert(v@[1] == f),
                Face::PosY => assert(v@[2] == f),
                Face::NegY => assert(v@[3] == f),
                Face::PosZ => assert(v@[4] == f),
                Face::NegZ => assert(v@[5] == f),
            }
        }
    }
    v
}

/// The visible faces of the block at `p`, each exactly once.
fn block_faces<T: BlockData>(world: &VoxelWorld<T>, p: Point) -> (v: Vec<MeshFace>)
    requires
        world.wf(),
        -2147483648 < p.x < 2147483647,
        -2147483648 < p.y < 2147483647,
        -2147483648 < p.z < 2147483647,
    ensures
        forall|m: int|
            0 <= m < v@.len() ==> (#[trigger] v@[m]).position == p && visible_face_spec(
                *world,
                p,
                v@[m].face,
            ),
        forall|f: Face| visible_face_spec(*world, p, f) ==> has_face(v@, p, f),
        forall|m1: int, m2: int| 0 <= m1 < m2 < v@.len() ==> v@[m1] != v@[m2],
{
    let faces = all_faces();
    let mut v: Vec<MeshFace> = Vec::new();
    let mut k: usize = 0;
    while k < 6
        invariant
            world.wf(),
            -2147483648 < p.x < 2147483647,
            -2147483648 < p.y < 2147483647,
            -2147483648 < p.z < 2147483647,
            k <= 6,
            faces@.len() == 6,
            faces@[0] == Face::PosX && faces@[1] == Face::NegX && faces@[2] == Face::PosY
                && faces@[3] == Face::NegY && faces@[4] == Face::PosZ && faces@[5] == Face::NegZ,
            forall|k1: int, k2: int| 0 <= k1 < k2 < 6 ==> faces@[k1] != faces@[k2],
            forall|f: Face| faces@.contains(f),
            forall|m: int|
                0 <= m < v@.len() ==> (#[trigger] v@[m]).position == p && visible_face_spec(
                    *world,
                    p,
                    v@[m].face,
                ),
            forall|m: int|
                0 <= m < v@.len() ==> exists|k2: int|
                    0 <= k2 < k && (#[trigger] v@[m]).face == faces@[k2],
            forall|k2: int|
                0 <= k2 < k && visible_face_spec(*world, p, #[trigger] faces@[k2]) ==> has_face(
                    v@,
                    p,
                    faces@[k2],
                ),
            forall|m1: int, m2: int| 0 <= m1 < m2 < v@.len() ==> v@[m1] != v@[m2],
        decreases 6 - k,
    {
        let f = faces[k];
        let ghost prev = v@;
        if face_visible(world, p, f) {
            proof {
                assert forall|m: int| 0 <= m < prev.len() implies prev[m] != (MeshFace {
                    position: p,
                    face: f,
                }) by {
                    let k2 = choose|k2: int| 0 <= k2 < k && prev[m].face == faces@[k2];
                    if prev[m].face == f {
                        assert(faces@[k2] == faces@[k as int]);
                    }
                }
            }
            v.push(MeshFace { position: p, face: f });
        }
        proof {
            assert forall|k2: int|
                0 <= k2 < k + 1 && visible_face_spec(*world, p, #[trigger] faces@[k2]) implies has_face(
                v@,
                p,
                faces@[k2],
            ) by {
                if k2 < k {
                    let m = choose|m: int|
                        0 <= m < prev.len() && prev[m] == (MeshFace {
                            position: p,
                            face: faces@[k2],
                        });
                    assert(v@[m] == (MeshFace { position: p, face: faces@[k2] }));
                } else {
                    assert(v@[v@.len() - 1] == (MeshFace { position: p, face: f }));
                }
            }
        }
        k = k + 1;
    }
    proof {
        assert forall|f: Face| visible_face_spec(*world, p, f) implies has_face(v@, p, f) by {
            let k2 = choose|k2: int| 0 <= k2 < 6 && faces@[k2] == f;
            assert(visible_face_spec(*world, p, faces@[k2]));
        }
    }
    v
}

/// Extracts the mesh of `region`: exactly the visible faces of its
/// blocks, each once. A region with no visible geometry yields an empty
/// mesh.
pub fn generate_mesh<T: BlockData>(world: &VoxelWorld<T>, region: Region) -> (m: Mesh)
    requires
        world.wf(),
        region.volume() <= usize::MAX,
        -2147483648 < region.min.x && region.max.x < 2147483647,
        -2147483648 < region.min.y && region.max.y < 2147483647,
        -2147483648 < region.min.z && region.max.z < 2147483647,
    ensures
        forall|p: Point, f: Face|
            has_face(m.faces@, p, f) == (region.contains_spec(p) && visible_face_spec(
                *world,
                p,
                f,
            )),
        forall|m1: int, m2: int| 0 <= m1 < m2 < m.faces@.len() ==> m.faces@[m1] != m.faces@[m2],
{
    let pts = region.points();
    let n = pts.len();
    let mut out: Vec<MeshFace> = Vec::new();
    let mut j: usize = 0;
    while j < n
        invariant
            world.wf(),
            region.volume() <= usize::MAX,
            -2147483648 < region.min.x && region.max.x < 2147483647,
            -2147483648 < region.min.y && region.max.y < 2147483647,
            -2147483648 < region.min.z && region.max.z < 2147483647,
            n == pts@.len(),
            j <= n,
            pts@.len() == region.volume(),
            forall|k: int| 0 <= k < pts@.len() ==> pts@[k] == region.coord_at(k),
            forall|m: int|
                0 <= m < out@.len() ==> region.contains_spec((#[trigger] out@[m]).position)
                    && visible_face_spec(*world, out@[m].position, out@[m].face),
            forall|m: int|
                0 <= m < out@.len() ==> exists|j2: int|
                    0 <= j2 < j && (#[trigger] out@[m]).position == pts@[j2],
            forall|j2: int, f: Face|
                0 <= j2 < j && #[trigger] visible_face_spec(*world, pts@[j2], f) ==> has_face(
                    out@,
                    pts@[j2],
                    f,
                ),
            forall|m1: int, m2: int| 0 <= m1 < m2 < out@.len() ==> out@[m1] != out@[m2],
        decreases n - j,
    {
        let p = pts[j];
        proof {
            region.lemma_coord_at_in_region(j as int);
        }
        let mut bf = block_faces(world, p);
        let ghost prev = out@;
        let ghost bfseq = bf@;
        proof {
            assert forall|m1: int, m2: int|
                0 <= m1 < prev.len() && 0 <= m2 < bfseq.len() implies prev[m1] != bfseq[m2] by {
                let j2 = choose|j2: int| 0 <= j2 < j && prev[m1].position == pts@[j2];
                if prev[m1] == bfseq[m2] {
                    assert(bfseq[m2].position == p);
                    region.lemma_scan_unique(j2, j as int);
                }
            }
        }
        out.append(&mut bf);
        proof {
            assert forall|j2: int, f: Face|
                0 <= j2 < j + 1 && #[trigger] visible_face_spec(*world, pts@[j2], f) implies has_face(
                out@,
                pts@[j2],
                f,
            ) by {
                if j2 < j {
                    let m = choose|m: int|
                        0 <= m < prev.len() && prev[m] == (MeshFace {
                            position: pts@[j2],
                            face: f,
                        });
                    assert(out@[m] == (MeshFace { position: pts@[j2], face: f }));
                } else {
                    let m = choose|m: int|
                        0 <= m < bfseq.len() && bfseq[m] == (MeshFace { position: p, face: f });
                    assert(out@[prev.len() + m] == (MeshFace { position: p, face: f }));
                }
            }
            assert forall|m: int|
                0 <= m < out@.len() implies exists|j2: int|
                    0 <= j2 < j + 1 && (#[trigger] out@[m]).position == pts@[j2] by {
                if m < prev.len() {
                    let j2 = choose|j2: int| 0 <= j2 < j && prev[m].position == pts@[j2];
                    assert(out@[m].position == pts@[j2]);
                } else {
                    assert(out@[m] == bfseq[m - prev.len()]);
                    assert(out@[m].position == pts@[j as int]);
                }
            }
        }
        j = j + 1;
    }
    proof {
        assert forall|p: Point, f: Face|
            has_face(out@, p, f) == (region.contains_spec(p) && visible_face_spec(
                *world,
                p,
                f,
            )) by {
            if has_face(out@, p, f) {
                let m = choose|m: int|
                    0 <= m < out@.len() && out@[m] == (MeshFace { position: p, face: f });
                assert(out@[m].position == p && out@[m].face == f);
            }
            if region.contains_spec(p) && visible_face_spec(*world, p, f) {
                region.lemma_index_of_in_scan(p);
                let j2 = region.index_of(p);
                assert(pts@[j2] == p);
            }
        }
    }
    Mesh { faces: out }
}

} // verus!
