//! The six axis directions of a structure.

use vstd::prelude::*;

verus! {

/// A direction along one axis of a structure, after block rotation has been applied.
#[derive(Clone, Copy, Debug, PartialEq, Eq, Hash, Structural)]
pub enum BlockDirection {
    /// +X
    PosX,
    /// -X
    NegX,
    /// +Y
    PosY,
    /// -Y
    NegY,
    /// +Z
    PosZ,
    /// -Z
    NegZ,
}

impl BlockDirection {
    /// The number that stands for this direction in keys and arrays.
    pub open spec fn spec_index(self) -> int {
        match self {
            BlockDirection::PosX => 0,
            BlockDirection::NegX => 1,
            BlockDirection::PosY => 2,
            BlockDirection::NegY => 3,
            BlockDirection::PosZ => 4,
            BlockDirection::NegZ => 5,
        }
    }

    /// The direction numbered `index`; numbers past the end read as `NegZ`.
    pub open spec fn spec_from_index(index: int) -> BlockDirection {
        if index == 0 {
            BlockDirection::PosX
        } else if index == 1 {
            BlockDirection::NegX
        } else if index == 2 {
            BlockDirection::PosY
        } else if index == 3 {
            BlockDirection::NegY
        } else if index == 4 {
            BlockDirection::PosZ
        } else {
            BlockDirection::NegZ
        }
    }

    /// The opposite direction.
    pub open spec fn spec_inverse(self) -> BlockDirection {
        match self {
            BlockDirection::PosX => BlockDirection::NegX,
            BlockDirection::NegX => BlockDirection::PosX,
            BlockDirection::PosY => BlockDirection::NegY,
            BlockDirection::NegY => BlockDirection::PosY,
            BlockDirection::PosZ => BlockDirection::NegZ,
            BlockDirection::NegZ => BlockDirection::PosZ,
        }
    }

    /// The step this direction takes along x, y and z.
    pub open spec fn spec_delta(self) -> (int, int, int) {
        match self {
            BlockDirection::PosX => (1, 0, 0),
            BlockDirection::NegX => (-1, 0, 0),
            BlockDirection::PosY => (0, 1, 0),
            BlockDirection::NegY => (0, -1, 0),
            BlockDirection::PosZ => (0, 0, 1),
            BlockDirection::NegZ => (0, 0, -1),
        }
    }

    /// The number that stands for this direction in keys and arrays.
    pub fn index(&self) -> (i: usize)
        ensures
            i == self.spec_index(),
            i < 6,
    {
        match self {
            BlockDirection::PosX => 0,
            BlockDirection::NegX => 1,
            BlockDirection::PosY => 2,
            BlockDirection::NegY => 3,
            BlockDirection::PosZ => 4,
            BlockDirection::NegZ => 5,
        }
    }

    /// The direction numbered `index`.
    pub fn from_index(index: usize) -> (direction: BlockDirection)
        requires
            index < 6,
        ensures
            direction == BlockDirection::spec_from_index(index as int),
            direction.spec_index() == index,
    {
        if index == 0 {
            BlockDirection::PosX
        } else if index == 1 {
            BlockDirection::NegX
        } else if index == 2 {
            BlockDirection::PosY
        } else if index == 3 {
            BlockDirection::NegY
        } else if index == 4 {
            BlockDirection::PosZ
        } else {
            BlockDirection::NegZ
        }
    }

    /// The opposite direction.
    pub fn inverse(&self) -> (direction: BlockDirection)
        ensures
            direction == self.spec_inverse(),
    {
        match self {
            BlockDirection::PosX => BlockDirection::NegX,
            BlockDirection::NegX => BlockDirection::PosX,
            BlockDirection::PosY => BlockDirection::NegY,
            BlockDirection::NegY => BlockDirection::PosY,
            BlockDirection::PosZ => BlockDirection::NegZ,
            BlockDirection::NegZ => BlockDirection::PosZ,
        }
    }
}

/// All six directions, in the order of their numbers.
pub fn all_block_directions() -> (all: [BlockDirection; 6])
    ensures
        forall|i: int| 0 <= i < 6 ==> all[i] == BlockDirection::spec_from_index(i),
{
    [
        BlockDirection::PosX,
        BlockDirection::NegX,
        BlockDirection::PosY,
        BlockDirection::NegY,
        BlockDirection::PosZ,
        BlockDirection::NegZ,
    ]
}

/// A direction and its number determine each other, and turning around twice changes nothing.
pub proof fn lemma_direction_index_round_trip(direction: BlockDirection, index: int)
    ensures
        BlockDirection::spec_from_index(direction.spec_index()) == direction,
        0 <= direction.spec_index() < 6,
        0 <= index < 6 ==> BlockDirection::spec_from_index(index).spec_index() == index,
        direction.spec_inverse().spec_inverse() == direction,
        direction.spec_inverse() != direction,
{
}

} // verus!
