//! Coordinate math for the chunked voxel grid.
//!
//! A world coordinate names one block in the infinite grid. Each axis is
//! split into chunks of 16 blocks: the chunk coordinate is the floor of
//! `world / 16` (toward negative infinity, also for negative inputs) and
//! the local coordinate is the non-negative remainder in `[0, 16)`.

use vstd::arithmetic::div_mod::lemma_fundamental_div_mod;
use vstd::arithmetic::div_mod::lemma_fundamental_div_mod_converse;
use vstd::prelude::*;

verus! {

/// Edge length of a cubic chunk, in blocks.
pub const CHUNK_SIZE: usize = 16;

/// Number of blocks held by one chunk.
pub const CHUNK_VOLUME: usize = 16 * 16 * 16;

/// A 3-component integer vector: a world, chunk or local coordinate.
#[derive(Clone, Copy, PartialEq, Eq, Structural, Debug)]
pub struct Point {
    pub x: i32,
    pub y: i32,
    pub z: i32,
}

/// Chunk coordinate of one axis: `world / 16` floored toward negative infinity.
pub open spec fn chunk_axis(w: int) -> int {
    w / 16
}

/// Local coordinate of one axis: the remainder of `world / 16`, always in `[0, 16)`.
pub open spec fn local_axis(w: int) -> int {
    w % 16
}

/// Chunk coordinate of a world coordinate, per axis.
pub open spec fn chunk_point(w: Point) -> Point {
    Point { x: chunk_axis(w.x as int) as i32, y: chunk_axis(w.y as int) as i32, z: chunk_axis(
        w.z as int,
    ) as i32 }
}

/// Local coordinate of a world coordinate, per axis.
pub open spec fn local_point(w: Point) -> Point {
    Point { x: local_axis(w.x as int) as i32, y: local_axis(w.y as int) as i32, z: local_axis(
        w.z as int,
    ) as i32 }
}

/// True when every axis of `l` lies in the local range `[0, 16)`.
pub open spec fn local_in_bounds(l: Point) -> bool {
    &&& 0 <= l.x < 16
    &&& 0 <= l.y < 16
    &&& 0 <= l.z < 16
}

/// True when every axis of `c` can be a chunk coordinate of some world
/// coordinate, so `16 * c + local` stays inside the coordinate range.
pub open spec fn chunk_in_bounds(c: Point) -> bool {
    &&& -134217728 <= c.x < 134217728
    &&& -134217728 <= c.y < 134217728
    &&& -134217728 <= c.z < 134217728
}

impl Point {
    /// Builds the vector `(x, y, z)`.
    pub fn new(x: i32, y: i32, z: i32) -> (p: Point)
        ensures
            p == (Point { x, y, z }),
    {
        Point { x, y, z }
    }

    /// Coordinate of the chunk that owns this world coordinate.
    pub fn chunk_coord(&self) -> (c: Point)
        ensures
            c == chunk_point(*self),
    {
        proof {
            lemma_chunk_axis_bounds(self.x as int);
            lemma_chunk_axis_bounds(self.y as int);
            lemma_chunk_axis_bounds(self.z as int);
        }
        Point { x: split_axis(self.x).0, y: split_axis(self.y).0, z: split_axis(self.z).0 }
    }

    /// Position of this world coordinate inside its owning chunk.
    pub fn local_coord(&self) -> (l: Point)
        ensures
            l == local_point(*self),
            local_in_bounds(l),
    {
        proof {
            lemma_coord_round_trip(self.x as int);
            lemma_coord_round_trip(self.y as int);
            lemma_coord_round_trip(self.z as int);
        }
        Point { x: split_axis(self.x).1, y: split_axis(self.y).1, z: split_axis(self.z).1 }
    }
}

/// Rebuilds the world coordinate owned by chunk `c` at local position `l`.
pub fn world_point(c: Point, l: Point) -> (w: Point)
    requires
        local_in_bounds(l),
        chunk_in_bounds(c),
    ensures
        w.x as int == 16 * c.x + l.x,
        w.y as int == 16 * c.y + l.y,
        w.z as int == 16 * c.z + l.z,
        chunk_point(w) == c,
        local_point(w) == l,
{
    let w = Point { x: 16 * c.x + l.x, y: 16 * c.y + l.y, z: 16 * c.z + l.z };
    proof {
        lemma_fundamental_div_mod_converse(w.x as int, 16, c.x as int, l.x as int);
        lemma_fundamental_div_mod_converse(w.y as int, 16, c.y as int, l.y as int);
        lemma_fundamental_div_mod_converse(w.z as int, 16, c.z as int, l.z as int);
    }
    w
}

/// Splits one axis of a world coordinate into its chunk and local parts.
///
/// The dividend is shifted by `2^31` into the non-negative range so a single
/// unsigned division yields the floored quotient and non-negative remainder.
fn split_axis(w: i32) -> (r: (i32, i32))
    ensures
        r.0 as int == chunk_axis(w as int),
        r.1 as int == local_axis(w as int),
{
    let shifted: u64 = ((w as i64) + 2147483648i64) as u64;
    let q: u64 = shifted / 16;
    let m: u64 = shifted % 16;
    proof {
        assert(shifted as int == w + 2147483648);
        lemma_fundamental_div_mod(shifted as int, 16);
        // w == 16 * (q - 2^27) + m with 0 <= m < 16, so q - 2^27 and m are
        // exactly the floored quotient and remainder of w / 16.
        lemma_fundamental_div_mod_converse(w as int, 16, q as int - 134217728, m as int);
    }
    (((q as i64) - 134217728i64) as i32, m as i32)
}

/// Round trip of the axis split: chunk and local parts recombine to the
/// original coordinate, and the local part always lies in `[0, 16)`.
pub proof fn lemma_coord_round_trip(w: int)
    ensures
        16 * chunk_axis(w) + local_axis(w) == w,
        0 <= local_axis(w) < 16,
{
    lemma_fundamental_div_mod(w, 16);
}

/// A chunk coordinate computed from an `i32` world coordinate stays within
/// the range from which a world coordinate can be rebuilt without overflow.
pub proof fn lemma_chunk_axis_bounds(w: int)
    requires
        -2147483648 <= w < 2147483648,
    ensures
        -134217728 <= chunk_axis(w) < 134217728,
{
    lemma_fundamental_div_mod(w, 16);
}

/// Full coordinate round trip: every world coordinate is recovered from its
/// chunk and local coordinates, and the local part is in bounds.
pub proof fn lemma_point_round_trip(w: Point)
    ensures
        local_in_bounds(local_point(w)),
        chunk_in_bounds(chunk_point(w)),
        16 * chunk_point(w).x + local_point(w).x == w.x as int,
        16 * chunk_point(w).y + local_point(w).y == w.y as int,
        16 * chunk_point(w).z + local_point(w).z == w.z as int,
{
    lemma_coord_round_trip(w.x as int);
    lemma_coord_round_trip(w.y as int);
    lemma_coord_round_trip(w.z as int);
    lemma_chunk_axis_bounds(w.x as int);
    lemma_chunk_axis_bounds(w.y as int);
    lemma_chunk_axis_bounds(w.z as int);
}

} // verus!
