//! The six sides of a block, named in the block's own frame.

use vstd::prelude::*;

use crate::block::block_direction::BlockDirection;

verus! {

/// A side of a block, as seen from the block itself before any rotation is applied.
#[derive(Clone, Copy, Debug, PartialEq, Eq, Hash, Structural)]
pub enum BlockFace {
    /// +X
    Right,
    /// -X
    Left,
    /// +Y
    Top,
    /// -Y
    Bottom,
    /// +Z
    Front,
    /// -Z
    Back,
}

impl BlockFace {
    /// The position of this face in per-face arrays: Right, Left, Top, Bottom, Front, Back.
    pub open spec fn spec_index(self) -> int {
        match self {
            BlockFace::Right => 0,
            BlockFace::Left => 1,
            BlockFace::Top => 2,
            BlockFace::Bottom => 3,
            BlockFace::Front => 4,
            BlockFace::Back => 5,
        }
    }

    /// The face stored at `index` of a per-face array; faces past the end read as `Back`.
    pub open spec fn spec_from_index(index: int) -> BlockFace {
        if index == 0 {
            BlockFace::Right
        } else if index == 1 {
            BlockFace::Left
        } else if index == 2 {
            BlockFace::Top
        } else if index == 3 {
            BlockFace::Bottom
        } else if index == 4 {
            BlockFace::Front
        } else {
            BlockFace::Back
        }
    }

    /// The face on the other side of the block.
    pub open spec fn spec_inverse(self) -> BlockFace {
        match self {
            BlockFace::Right => BlockFace::Left,
            BlockFace::Left => BlockFace::Right,
            BlockFace::Top => BlockFace::Bottom,
            BlockFace::Bottom => BlockFace::Top,
            BlockFace::Front => BlockFace::Back,
            BlockFace::Back => BlockFace::Front,
        }
    }

    /// Where `face` of a block points once the block is turned so that its top points along
    /// `self`. An upright block (`Top`) keeps every face on its own axis; the other five
    /// orientations exchange or flip the vertical axis with the axis `self` lies on.
    pub open spec fn spec_direction_of(self, face: BlockFace) -> BlockDirection {
        match self {
            BlockFace::Top => match face {
                BlockFace::Right => BlockDirection::PosX,
                BlockFace::Left => BlockDirection::NegX,
                BlockFace::Top => BlockDirection::PosY,
                BlockFace::Bottom => BlockDirection::NegY,
                BlockFace::Front => BlockDirection::PosZ,
                BlockFace::Back => BlockDirection::NegZ,
            },
            BlockFace::Bottom => match face {
                BlockFace::Right => BlockDirection::PosX,
                BlockFace::Left => BlockDirection::NegX,
                BlockFace::Top => BlockDirection::NegY,
                BlockFace::Bottom => BlockDirection::PosY,
                BlockFace::Front => BlockDirection::PosZ,
                BlockFace::Back => BlockDirection::NegZ,
            },
            BlockFace::Right => match face {
                BlockFace::Right => BlockDirection::PosY,
                BlockFace::Left => BlockDirection::NegY,
                BlockFace::Top => BlockDirection::PosX,
                BlockFace::Bottom => BlockDirection::NegX,
                BlockFace::Front => BlockDirection::PosZ,
                BlockFace::Back => BlockDirection::NegZ,
            },
            BlockFace::Left => match face {
                BlockFace::Right => BlockDirection::PosY,
                BlockFace::Left => BlockDirection::NegY,
                BlockFace::Top => BlockDirection::NegX,
                BlockFace::Bottom => BlockDirection::PosX,
                BlockFace::Front => BlockDirection::PosZ,
                BlockFace::Back => BlockDirection::NegZ,
            },
            BlockFace::Front => match face {
                BlockFace::Right => BlockDirection::PosX,
                BlockFace::Left => BlockDirection::NegX,
                BlockFace::Top => BlockDirection::PosZ,
                BlockFace::Bottom => BlockDirection::NegZ,
                BlockFace::Front => BlockDirection::PosY,
                BlockFace::Back => BlockDirection::NegY,
            },
            BlockFace::Back => match face {
                BlockFace::Right => BlockDirection::PosX,
                BlockFace::Left => BlockDirection::NegX,
                BlockFace::Top => BlockDirection::NegZ,
                BlockFace::Bottom => BlockDirection::PosZ,
                BlockFace::Front => BlockDirection::PosY,
                BlockFace::Back => BlockDirection::NegY,
            },
        }
    }

    /// The face of a block turned to `self` that points along `direction`: the inverse of
    /// [`BlockFace::spec_direction_of`].
    pub open spec fn spec_face_pointing(self, direction: BlockDirection) -> BlockFace {
        match self {
            BlockFace::Top => match direction {
                BlockDirection::PosX => BlockFace::Right,
                BlockDirection::NegX => BlockFace::Left,
                BlockDirection::PosY => BlockFace::Top,
                BlockDirection::NegY => BlockFace::Bottom,
                BlockDirection::PosZ => BlockFace::Front,
                BlockDirection::NegZ => BlockFace::Back,
            },
            BlockFace::Bottom => match direction {
                BlockDirection::PosX => BlockFace::Right,
                BlockDirection::NegX => BlockFace::Left,
                BlockDirection::PosY => BlockFace::Bottom,
                BlockDirection::NegY => BlockFace::Top,
                BlockDirection::PosZ => BlockFace::Front,
                BlockDirection::NegZ => BlockFace::Back,
            },
            BlockFace::Right => match direction {
                BlockDirection::PosX => BlockFace::Top,
                BlockDirection::NegX => BlockFace::Bottom,
                BlockDirection::PosY => BlockFace::Right,
                BlockDirection::NegY => BlockFace::Left,
                BlockDirection::PosZ => BlockFace::Front,
                BlockDirection::NegZ => BlockFace::Back,
            },
            BlockFace::Left => match direction {
                BlockDirection::PosX => BlockFace::Bottom,
                BlockDirection::NegX => BlockFace::Top,
                BlockDirection::PosY => BlockFace::Right,
                BlockDirection::NegY => BlockFace::Left,
                BlockDirection::PosZ => BlockFace::Front,
                BlockDirection::NegZ => BlockFace::Back,
            },
            BlockFace::Front => match direction {
                BlockDirection::PosX => BlockFace::Right,
                BlockDirection::NegX => BlockFace::Left,
                BlockDirection::PosY => BlockFace::Front,
                BlockDirection::NegY => BlockFace::Back,
                BlockDirection::PosZ => BlockFace::Top,
                BlockDirection::NegZ => BlockFace::Bottom,
            },
            BlockFace::Back => match direction {
                BlockDirection::PosX => BlockFace::Right,
                BlockDirection::NegX => BlockFace::Left,
                BlockDirection::PosY => BlockFace::Front,
                BlockDirection::NegY => BlockFace::Back,
                BlockDirection::PosZ => BlockFace::Bottom,
                BlockDirection::NegZ => BlockFace::Top,
            },
        }
    }

    /// The position of this face in per-face arrays.
    pub fn index(&self) -> (i: usize)
        ensures
            i == self.spec_index(),
            i < 6,
    {
        match self {
            BlockFace::Right => 0,
            BlockFace::Left => 1,
            BlockFace::Top => 2,
            BlockFace::Bottom => 3,
            BlockFace::Front => 4,
            BlockFace::Back => 5,
        }
    }

    /// The face stored at `index` of a per-face array.
    pub fn from_index(index: usize) -> (face: BlockFace)
        requires
            index < 6,
        ensures
            face == BlockFace::spec_from_index(index as int),
            face.spec_index() == index,
    {
        if index == 0 {
            BlockFace::Right
        } else if index == 1 {
            BlockFace::Left
        } else if index == 2 {
            BlockFace::Top
        } else if index == 3 {
            BlockFace::Bottom
        } else if index == 4 {
            BlockFace::Front
        } else {
            BlockFace::Back
        }
    }

    /// The face on the other side of the block.
    pub fn inverse(&self) -> (face: BlockFace)
        ensures
            face == self.spec_inverse(),
    {
        match self {
            BlockFace::Right => BlockFace::Left,
            BlockFace::Left => BlockFace::Right,
            BlockFace::Top => BlockFace::Bottom,
            BlockFace::Bottom => BlockFace::Top,
            BlockFace::Front => BlockFace::Back,
            BlockFace::Back => BlockFace::Front,
        }
    }

    /// Resolves `face` of a block whose top points along `self` to the direction it points in
    /// the frame of the structure.
    pub fn direction_of(&self, face: BlockFace) -> (direction: BlockDirection)
        ensures
            direction == self.spec_direction_of(face),
    {
        let upright = match face {
            BlockFace::Right => BlockDirection::PosX,
            BlockFace::Left => BlockDirection::NegX,
            BlockFace::Top => BlockDirection::PosY,
            BlockFace::Bottom => BlockDirection::NegY,
            BlockFace::Front => BlockDirection::PosZ,
            BlockFace::Back => BlockDirection::NegZ,
        };
        match self {
            BlockFace::Top => upright,
            BlockFace::Bottom => match upright {
                BlockDirection::PosY => BlockDirection::NegY,
                BlockDirection::NegY => BlockDirection::PosY,
                _ => upright,
            },
            BlockFace::Right => match upright {
                BlockDirection::PosX => BlockDirection::PosY,
                BlockDirection::NegX => BlockDirection::NegY,
                BlockDirection::PosY => BlockDirection::PosX,
                BlockDirection::NegY => BlockDirection::NegX,
                _ => upright,
            },
            BlockFace::Left => match upright {
                BlockDirection::PosX => BlockDirection::PosY,
                BlockDirection::NegX => BlockDirection::NegY,
                BlockDirection::PosY => BlockDirection::NegX,
                BlockDirection::NegY => BlockDirection::PosX,
                _ => upright,
            },
            BlockFace::Front => match upright {
                BlockDirection::PosY => BlockDirection::PosZ,
                BlockDirection::NegY => BlockDirection::NegZ,
                BlockDirection::PosZ => BlockDirection::PosY,
                BlockDirection::NegZ => BlockDirection::NegY,
                _ => upright,
            },
            BlockFace::Back => match upright {
                BlockDirection::PosY => BlockDirection::NegZ,
                BlockDirection::NegY => BlockDirection::PosZ,
                BlockDirection::PosZ => BlockDirection::PosY,
                BlockDirection::NegZ => BlockDirection::NegY,
                _ => upright,
            },
        }
    }

    /// Finds the face of a block whose top points along `self` that points along `direction`
    /// in the frame of the structure.
    pub fn face_pointing(&self, direction: BlockDirection) -> (face: BlockFace)
        ensures
            face == self.spec_face_pointing(direction),
            self.spec_direction_of(face) == direction,
    {
        let mut i: usize = 0;
        let mut found = BlockFace::Back;
        while i < 6
            invariant
                i <= 6,
                forall|j: int|
                    0 <= j < i && self.spec_direction_of(BlockFace::spec_from_index(j))
                        == direction ==> found == BlockFace::spec_from_index(j),
            decreases 6 - i,
        {
            let candidate = BlockFace::from_index(i);
            if self.direction_of(candidate) == direction {
                found = candidate;
            }
            i += 1;
        }
        proof {
            let f = self.spec_face_pointing(direction);
            assert(self.spec_direction_of(f) == direction);
            assert(BlockFace::spec_from_index(f.spec_index()) == f);
        }
        found
    }

    /// The direction the front of a block turned to `self` points in.
    pub fn local_front(&self) -> (direction: BlockDirection)
        ensures
            direction == self.spec_direction_of(BlockFace::Front),
    {
        self.direction_of(BlockFace::Front)
    }
}

/// Resolving a face to a direction and looking that direction up again gives the face back.
pub proof fn law_face_pointing_inverts_direction_of(up: BlockFace, face: BlockFace)
    ensures
        up.spec_face_pointing(up.spec_direction_of(face)) == face,
{
}

/// Looking up the face for a direction and resolving it again gives the direction back.
pub proof fn law_direction_of_inverts_face_pointing(up: BlockFace, direction: BlockDirection)
    ensures
        up.spec_direction_of(up.spec_face_pointing(direction)) == direction,
{
}

/// Opposite faces of a block point in opposite directions, however the block is turned.
pub proof fn law_rotation_keeps_opposites(up: BlockFace, face: BlockFace)
    ensures
        up.spec_direction_of(face.spec_inverse()) == up.spec_direction_of(face).spec_inverse(),
{
}

/// A face and its position in per-face arrays determine each other.
pub proof fn lemma_face_index_round_trip(face: BlockFace, index: int)
    ensures
        BlockFace::spec_from_index(face.spec_index()) == face,
        0 <= face.spec_index() < 6,
        0 <= index < 6 ==> BlockFace::spec_from_index(index).spec_index() == index,
{
}

} // verus!
