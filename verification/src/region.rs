//! Axis-aligned integer regions and their iteration order.
//!
//! A region is an inclusive box between two coordinates. A region whose
//! minimum exceeds its maximum on some axis is empty: a valid degenerate
//! case that contains nothing and iterates zero coordinates. Iteration
//! scans x fastest, then y, then z.

use crate::coords::Point;
use vstd::arithmetic::div_mod::lemma_div_pos_is_pos;
use vstd::arithmetic::div_mod::lemma_fundamental_div_mod;
use vstd::arithmetic::div_mod::lemma_fundamental_div_mod_converse;
use vstd::arithmetic::div_mod::lemma_mod_pos_bound;
use vstd::arithmetic::div_mod::lemma_multiply_divide_lt;
use vstd::prelude::*;

verus! {

/// An axis-aligned box of coordinates, inclusive on both ends.
#[derive(Clone, Copy, PartialEq, Eq, Structural, Debug)]
pub struct Region {
    pub min: Point,
    pub max: Point,
}

impl Region {
    /// True when the region contains no coordinate at all.
    pub open spec fn is_empty(self) -> bool {
        self.min.x > self.max.x || self.min.y > self.max.y || self.min.z > self.max.z
    }

    /// True when `p` lies inside the region on every axis.
    pub open spec fn contains_spec(self, p: Point) -> bool {
        &&& self.min.x <= p.x <= self.max.x
        &&& self.min.y <= p.y <= self.max.y
        &&& self.min.z <= p.z <= self.max.z
    }

    /// Number of coordinates covered along the x axis.
    pub open spec fn extent_x(self) -> int {
        self.max.x - self.min.x + 1
    }

    /// Number of coordinates covered along the y axis.
    pub open spec fn extent_y(self) -> int {
        self.max.y - self.min.y + 1
    }

    /// Number of coordinates covered along the z axis.
    pub open spec fn extent_z(self) -> int {
        self.max.z - self.min.z + 1
    }

    /// Number of coordinates the region contains.
    pub open spec fn volume(self) -> int {
        if self.is_empty() {
            0
        } else {
            self.extent_x() * self.extent_y() * self.extent_z()
        }
    }

    /// The `i`-th coordinate of the scan order: x varies fastest, then y,
    /// then z.
    pub open spec fn coord_at(self, i: int) -> Point
        recommends
            0 <= i < self.volume(),
    {
        Point {
            x: (self.min.x + i % self.extent_x()) as i32,
            y: (self.min.y + (i / self.extent_x()) % self.extent_y()) as i32,
            z: (self.min.z + (i / self.extent_x()) / self.extent_y()) as i32,
        }
    }

    /// Position of `p` in the scan order.
    pub open spec fn index_of(self, p: Point) -> int
        recommends
            self.contains_spec(p),
    {
        ((p.z - self.min.z) * self.extent_y() + (p.y - self.min.y)) * self.extent_x() + (p.x
            - self.min.x)
    }

    /// Builds the region spanning `min..=max` on every axis.
    pub fn new(min: Point, max: Point) -> (r: Region)
        ensures
            r == (Region { min, max }),
    {
        Region { min, max }
    }

    /// True when the region contains no coordinate.
    pub fn empty(&self) -> (b: bool)
        ensures
            b == self.is_empty(),
    {
        self.min.x > self.max.x || self.min.y > self.max.y || self.min.z > self.max.z
    }

    /// True when `p` lies inside the region.
    pub fn contains(&self, p: Point) -> (b: bool)
        ensures
            b == self.contains_spec(p),
    {
        self.min.x <= p.x && p.x <= self.max.x && self.min.y <= p.y && p.y <= self.max.y
            && self.min.z <= p.z && p.z <= self.max.z
    }

    /// Translates the region by `d` on every axis.
    pub fn shift(&self, d: Point) -> (r: Region)
        requires
            -2147483648 <= self.min.x + d.x < 2147483648,
            -2147483648 <= self.min.y + d.y < 2147483648,
            -2147483648 <= self.min.z + d.z < 2147483648,
            -2147483648 <= self.max.x + d.x < 2147483648,
            -2147483648 <= self.max.y + d.y < 2147483648,
            -2147483648 <= self.max.z + d.z < 2147483648,
        ensures
            r.min.x == self.min.x + d.x,
            r.min.y == self.min.y + d.y,
            r.min.z == self.min.z + d.z,
            r.max.x == self.max.x + d.x,
            r.max.y == self.max.y + d.y,
            r.max.z == self.max.z + d.z,
    {
        Region {
            min: Point { x: self.min.x + d.x, y: self.min.y + d.y, z: self.min.z + d.z },
            max: Point { x: self.max.x + d.x, y: self.max.y + d.y, z: self.max.z + d.z },
        }
    }

    /// Intersection of two regions; the result is empty when they are
    /// disjoint.
    pub fn intersect(&self, other: &Region) -> (r: Region)
        ensures
            forall|p: Point|
                r.contains_spec(p) <==> (self.contains_spec(p) && other.contains_spec(p)),
    {
        Region {
            min: Point {
                x: if self.min.x >= other.min.x {
                    self.min.x
                } else {
                    other.min.x
                },
                y: if self.min.y >= other.min.y {
                    self.min.y
                } else {
                    other.min.y
                },
                z: if self.min.z >= other.min.z {
                    self.min.z
                } else {
                    other.min.z
                },
            },
            max: Point {
                x: if self.max.x <= other.max.x {
                    self.max.x
                } else {
                    other.max.x
                },
                y: if self.max.y <= other.max.y {
                    self.max.y
                } else {
                    other.max.y
                },
                z: if self.max.z <= other.max.z {
                    self.max.z
                } else {
                    other.max.z
                },
            },
        }
    }

    /// Number of coordinates the region contains.
    pub fn count(&self) -> (n: u128)
        ensures
            n as int == self.volume(),
    {
        if self.empty() {
            0
        } else {
            let ex: u128 = (self.max.x as i64 - self.min.x as i64 + 1) as u128;
            let ey: u128 = (self.max.y as i64 - self.min.y as i64 + 1) as u128;
            let ez: u128 = (self.max.z as i64 - self.min.z as i64 + 1) as u128;
            proof {
                let exi = ex as int;
                let eyi = ey as int;
                let ezi = ez as int;
                assert(exi * eyi <= 0x1_0000_0000_0000_0000 && exi * eyi * ezi
                    <= 0x1_0000_0000_0000_0000_0000_0000) by (nonlinear_arith)
                    requires
                        0 < exi <= 0x1_0000_0000,
                        0 < eyi <= 0x1_0000_0000,
                        0 < ezi <= 0x1_0000_0000,
                ;
            }
            ex * ey * ez
        }
    }

    /// The `i`-th coordinate of the scan order.
    pub fn point_at(&self, i: usize) -> (p: Point)
        requires
            i < self.volume(),
        ensures
            p == self.coord_at(i as int),
    {
        proof {
            self.lemma_nonempty_extents(i as int);
        }
        let ex: u64 = (self.max.x as i64 - self.min.x as i64 + 1) as u64;
        let ey: u64 = (self.max.y as i64 - self.min.y as i64 + 1) as u64;
        let rx: u64 = (i as u64) % ex;
        let q1: u64 = (i as u64) / ex;
        let ry: u64 = q1 % ey;
        let rz: u64 = q1 / ey;
        proof {
            self.lemma_coord_at_in_region(i as int);
        }
        Point {
            x: (self.min.x as i64 + rx as i64) as i32,
            y: (self.min.y as i64 + ry as i64) as i32,
            z: (self.min.z as i64 + rz as i64) as i32,
        }
    }

    /// All coordinates of the region in scan order.
    pub fn points(&self) -> (v: Vec<Point>)
        requires
            self.volume() <= usize::MAX,
        ensures
            v@.len() == self.volume(),
            forall|i: int| 0 <= i < self.volume() ==> v@[i] == self.coord_at(i),
    {
        let total: u128 = self.count();
        let n: usize = total as usize;
        let mut v: Vec<Point> = Vec::new();
        let mut i: usize = 0;
        while i < n
            invariant
                n == self.volume(),
                i <= n,
                v@.len() == i,
                forall|k: int| 0 <= k < i ==> v@[k] == self.coord_at(k),
            decreases n - i,
        {
            let p = self.point_at(i);
            v.push(p);
            i = i + 1;
        }
        v
    }

    /// A positive scan index forces every extent to be positive.
    proof fn lemma_nonempty_extents(self, i: int)
        requires
            0 <= i < self.volume(),
        ensures
            !self.is_empty(),
            0 < self.extent_x(),
            0 < self.extent_y(),
            0 < self.extent_z(),
    {
    }

    /// Every scan index below the volume names a coordinate inside the
    /// region, and the scan index of that coordinate is the index itself:
    /// distinct indices yield distinct coordinates.
    pub proof fn lemma_coord_at_in_region(self, i: int)
        requires
            0 <= i < self.volume(),
        ensures
            self.contains_spec(self.coord_at(i)),
            self.index_of(self.coord_at(i)) == i,
            0 <= i % self.extent_x() < self.extent_x(),
            0 <= (i / self.extent_x()) % self.extent_y() < self.extent_y(),
            0 <= (i / self.extent_x()) / self.extent_y() < self.extent_z(),
            self.coord_at(i).x == self.min.x + i % self.extent_x(),
            self.coord_at(i).y == self.min.y + (i / self.extent_x()) % self.extent_y(),
            self.coord_at(i).z == self.min.z + (i / self.extent_x()) / self.extent_y(),
    {
        self.lemma_nonempty_extents(i);
        let ex = self.extent_x();
        let ey = self.extent_y();
        let ez = self.extent_z();
        let rx = i % ex;
        let q1 = i / ex;
        let ry = q1 % ey;
        let rz = q1 / ey;
        lemma_mod_pos_bound(i, ex);
        lemma_div_pos_is_pos(i, ex);
        lemma_mod_pos_bound(q1, ey);
        lemma_div_pos_is_pos(q1, ey);
        assert(i < ex * (ey * ez)) by (nonlinear_arith)
            requires
                i < self.volume(),
                self.volume() == ex * ey * ez,
        ;
        lemma_multiply_divide_lt(i, ex, ey * ez);
        assert(q1 < ey * ez);
        lemma_multiply_divide_lt(q1, ey, ez);
        lemma_fundamental_div_mod(i, ex);
        lemma_fundamental_div_mod(q1, ey);
        assert((rz * ey + ry) * ex + rx == i) by (nonlinear_arith)
            requires
                i == ex * q1 + rx,
                q1 == ey * rz + ry,
        ;
        assert(self.index_of(self.coord_at(i)) == i);
    }

    /// Every coordinate of the region is reached by the scan: its index is
    /// below the volume and scanning that index returns the coordinate.
    pub proof fn lemma_index_of_in_scan(self, p: Point)
        requires
            self.contains_spec(p),
        ensures
            0 <= self.index_of(p) < self.volume(),
            self.coord_at(self.index_of(p)) == p,
    {
        let ex = self.extent_x();
        let ey = self.extent_y();
        let ez = self.extent_z();
        let dx = p.x - self.min.x;
        let dy = p.y - self.min.y;
        let dz = p.z - self.min.z;
        let idx = self.index_of(p);
        assert(0 <= idx < ex * ey * ez) by (nonlinear_arith)
            requires
                idx == (dz * ey + dy) * ex + dx,
                0 <= dx < ex,
                0 <= dy < ey,
                0 <= dz < ez,
        ;
        assert(idx == (dz * ey + dy) * ex + dx);
        assert(0 <= dz * ey + dy < ey * ez) by (nonlinear_arith)
            requires
                0 <= dy < ey,
                0 <= dz < ez,
        ;
        assert(idx == (dz * ey + dy) * ex + dx ==> idx == ex * (dz * ey + dy) + dx)
            by (nonlinear_arith);
        lemma_fundamental_div_mod_converse(idx, ex, dz * ey + dy, dx);
        assert(idx % ex == dx);
        assert(idx / ex == dz * ey + dy);
        assert(dz * ey + dy == ey * dz + dy) by (nonlinear_arith);
        lemma_fundamental_div_mod_converse(dz * ey + dy, ey, dz, dy);
        assert(self.coord_at(idx) == p);
    }

    /// Distinct coordinates of the region occupy distinct scan positions.
    pub proof fn lemma_scan_unique(self, i: int, j: int)
        requires
            0 <= i < self.volume(),
            0 <= j < self.volume(),
            i != j,
        ensures
            self.coord_at(i) != self.coord_at(j),
    {
        self.lemma_coord_at_in_region(i);
        self.lemma_coord_at_in_region(j);
    }
}

} // verus!
