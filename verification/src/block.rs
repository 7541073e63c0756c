//! Block capability contract.
//!
//! The world stores one caller-defined block value per grid cell. The
//! stored type supplies, per value, an occlusion mask (which of its six
//! faces fully block sight into the cell), whether the value contributes
//! renderable geometry at all, and a default value used to fill fresh
//! chunks.

use vstd::prelude::*;

verus! {

/// One of the six axis-aligned faces of a block.
#[derive(Clone, Copy, PartialEq, Eq, Structural, Debug)]
pub enum Face {
    PosX,
    NegX,
    PosY,
    NegY,
    PosZ,
    NegZ,
}

impl Face {
    /// The face that looks back at this one from the neighboring block.
    pub open spec fn opposite_spec(self) -> Face {
        match self {
            Face::PosX => Face::NegX,
            Face::NegX => Face::PosX,
            Face::PosY => Face::NegY,
            Face::NegY => Face::PosY,
            Face::PosZ => Face::NegZ,
            Face::NegZ => Face::PosZ,
        }
    }

    /// The face that looks back at this one from the neighboring block.
    pub fn opposite(&self) -> (f: Face)
        ensures
            f == self.opposite_spec(),
    {
        match self {
            Face::PosX => Face::NegX,
            Face::NegX => Face::PosX,
            Face::PosY => Face::NegY,
            Face::NegY => Face::PosY,
            Face::PosZ => Face::NegZ,
            Face::NegZ => Face::PosZ,
        }
    }

    /// Unit step toward the neighbor across this face, per axis.
    pub open spec fn step_spec(self) -> (int, int, int) {
        match self {
            Face::PosX => (1int, 0int, 0int),
            Face::NegX => (-1int, 0int, 0int),
            Face::PosY => (0int, 1int, 0int),
            Face::NegY => (0int, -1int, 0int),
            Face::PosZ => (0int, 0int, 1int),
            Face::NegZ => (0int, 0int, -1int),
        }
    }

    /// Unit step toward the neighbor across this face, as `(x, y, z)`.
    pub fn step(&self) -> (s: (i32, i32, i32))
        ensures
            (s.0 as int, s.1 as int, s.2 as int) == self.step_spec(),
    {
        match self {
            Face::PosX => (1, 0, 0),
            Face::NegX => (-1, 0, 0),
            Face::PosY => (0, 1, 0),
            Face::NegY => (0, -1, 0),
            Face::PosZ => (0, 0, 1),
            Face::NegZ => (0, 0, -1),
        }
    }
}

/// One flag per face of a block.
#[derive(Clone, Copy, PartialEq, Eq, Structural, Debug)]
pub struct FaceMask {
    pub pos_x: bool,
    pub neg_x: bool,
    pub pos_y: bool,
    pub neg_y: bool,
    pub pos_z: bool,
    pub neg_z: bool,
}

impl FaceMask {
    /// The flag stored for `face`.
    pub open spec fn get_spec(self, face: Face) -> bool {
        match face {
            Face::PosX => self.pos_x,
            Face::NegX => self.neg_x,
            Face::PosY => self.pos_y,
            Face::NegY => self.neg_y,
            Face::PosZ => self.pos_z,
            Face::NegZ => self.neg_z,
        }
    }

    /// The flag stored for `face`.
    pub fn get(&self, face: Face) -> (b: bool)
        ensures
            b == self.get_spec(face),
    {
        match face {
            Face::PosX => self.pos_x,
            Face::NegX => self.neg_x,
            Face::PosY => self.pos_y,
            Face::NegY => self.neg_y,
            Face::PosZ => self.pos_z,
            Face::NegZ => self.neg_z,
        }
    }

    /// Mask with every face set.
    pub fn all() -> (m: FaceMask)
        ensures
            m == (FaceMask {
                pos_x: true,
                neg_x: true,
                pos_y: true,
                neg_y: true,
                pos_z: true,
                neg_z: true,
            }),
    {
        FaceMask { pos_x: true, neg_x: true, pos_y: true, neg_y: true, pos_z: true, neg_z: true }
    }

    /// Mask with no face set.
    pub fn none() -> (m: FaceMask)
        ensures
            m == (FaceMask {
                pos_x: false,
                neg_x: false,
                pos_y: false,
                neg_y: false,
                pos_z: false,
                neg_z: false,
            }),
    {
        FaceMask {
            pos_x: false,
            neg_x: false,
            pos_y: false,
            neg_y: false,
            pos_z: false,
            neg_z: false,
        }
    }
}

/// Capability contract of a stored block type.
///
/// Implementations decide what each value occludes and renders; the exec
/// methods must agree with the value-level spec functions, which is what
/// lets storage and meshing state exact contracts over stored data.
pub trait BlockData: Sized + Copy {
    /// Which faces of a block holding this value fully block sight.
    spec fn occlusion_spec(self) -> FaceMask;

    /// Whether this value contributes renderable geometry.
    spec fn visible_spec(self) -> bool;

    /// The value a freshly created chunk is filled with.
    spec fn default_spec() -> Self;

    /// Which faces of a block holding this value fully block sight.
    fn occlusion(&self) -> (m: FaceMask)
        ensures
            m == self.occlusion_spec(),
    ;

    /// Whether this value contributes renderable geometry.
    fn visible(&self) -> (v: bool)
        ensures
            v == self.visible_spec(),
    ;

    /// The value a freshly created chunk is filled with.
    fn default_value() -> (d: Self)
        ensures
            d == Self::default_spec(),
    ;
}

/// A minimal block type: a cell is either empty or a full opaque cube.
#[derive(Clone, Copy, PartialEq, Eq, Structural, Debug)]
pub enum BasicBlock {
    Empty,
    Solid,
}

impl Default for BasicBlock {
    /// An unset cell is empty.
    fn default() -> (d: Self)
        ensures
            d == BasicBlock::Empty,
    {
        BasicBlock::Empty
    }
}

impl BlockData for BasicBlock {
    open spec fn occlusion_spec(self) -> FaceMask {
        match self {
            BasicBlock::Empty => FaceMask {
                pos_x: false,
                neg_x: false,
                pos_y: false,
                neg_y: false,
                pos_z: false,
                neg_z: false,
            },
            BasicBlock::Solid => FaceMask {
                pos_x: true,
                neg_x: true,
                pos_y: true,
                neg_y: true,
                pos_z: true,
                neg_z: true,
            },
        }
    }

    open spec fn visible_spec(self) -> bool {
        self is Solid
    }

    open spec fn default_spec() -> Self {
        BasicBlock::Empty
    }

    fn occlusion(&self) -> (m: FaceMask) {
        match self {
            BasicBlock::Empty => FaceMask::none(),
            BasicBlock::Solid => FaceMask::all(),
        }
    }

    fn visible(&self) -> (v: bool) {
        match self {
            BasicBlock::Empty => false,
            BasicBlock::Solid => true,
        }
    }

    fn default_value() -> (d: Self) {
        BasicBlock::Empty
    }
}

} // verus!
