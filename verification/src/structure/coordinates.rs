//! Positions of blocks and chunks inside a structure.

use vstd::prelude::*;

use crate::block::block_direction::BlockDirection;

verus! {

/// The number type of coordinates that lie inside a structure.
pub type CoordinateType = u64;

/// The number type of coordinates that may lie outside a structure.
pub type UnboundCoordinateType = i64;

/// The number of blocks along each edge of a chunk.
pub const CHUNK_DIMENSIONS: CoordinateType = 32;

/// Why a coordinate does not name a place inside a structure.
#[derive(Clone, Copy, Debug, PartialEq, Eq, Structural)]
pub enum BoundsError {
    /// At least one component lies below zero.
    Negative,
    /// At least one component lies at or past the upper bound.
    Positive,
}

/// The position of a block in a structure, counted in blocks from the structure's corner.
#[derive(Clone, Copy, Debug, PartialEq, Eq, Hash, Structural)]
pub struct BlockCoordinate {
    /// Blocks along x.
    pub x: CoordinateType,
    /// Blocks along y.
    pub y: CoordinateType,
    /// Blocks along z.
    pub z: CoordinateType,
}

/// The position of a chunk in a structure, counted in chunks from the structure's corner.
#[derive(Clone, Copy, Debug, PartialEq, Eq, Hash, Structural)]
pub struct ChunkCoordinate {
    /// Chunks along x.
    pub x: CoordinateType,
    /// Chunks along y.
    pub y: CoordinateType,
    /// Chunks along z.
    pub z: CoordinateType,
}

/// The position of a block inside its chunk; each component is below [`CHUNK_DIMENSIONS`].
#[derive(Clone, Copy, Debug, PartialEq, Eq, Hash, Structural)]
pub struct ChunkBlockCoordinate {
    /// Blocks along x.
    pub x: CoordinateType,
    /// Blocks along y.
    pub y: CoordinateType,
    /// Blocks along z.
    pub z: CoordinateType,
}

/// A block position that may lie outside the structure, below zero included.
#[derive(Clone, Copy, Debug, PartialEq, Eq, Hash, Structural)]
pub struct UnboundBlockCoordinate {
    /// Blocks along x.
    pub x: UnboundCoordinateType,
    /// Blocks along y.
    pub y: UnboundCoordinateType,
    /// Blocks along z.
    pub z: UnboundCoordinateType,
}

/// A chunk position that may lie outside the structure, below zero included.
#[derive(Clone, Copy, Debug, PartialEq, Eq, Hash, Structural)]
pub struct UnboundChunkCoordinate {
    /// Chunks along x.
    pub x: UnboundCoordinateType,
    /// Chunks along y.
    pub y: UnboundCoordinateType,
    /// Chunks along z.
    pub z: UnboundCoordinateType,
}

impl BlockCoordinate {
    /// Whether every component lies below the matching component of `dimensions`.
    pub open spec fn spec_within(self, dimensions: BlockCoordinate) -> bool {
        self.x < dimensions.x && self.y < dimensions.y && self.z < dimensions.z
    }

    /// The position one block away along `direction`, where its components fit the
    /// coordinate type.
    pub open spec fn spec_step(self, direction: BlockDirection) -> Option<BlockCoordinate> {
        let (dx, dy, dz) = direction.spec_delta();
        let (x, y, z) = (self.x + dx, self.y + dy, self.z + dz);
        if 0 <= x <= u64::MAX && 0 <= y <= u64::MAX && 0 <= z <= u64::MAX {
            Some(BlockCoordinate { x: x as u64, y: y as u64, z: z as u64 })
        } else {
            None
        }
    }

    /// The position one block away along `direction`, where it lies inside `dimensions`.
    pub open spec fn spec_neighbor(
        self,
        direction: BlockDirection,
        dimensions: BlockCoordinate,
    ) -> Option<BlockCoordinate> {
        match self.spec_step(direction) {
            Some(next) => if next.spec_within(dimensions) {
                Some(next)
            } else {
                None
            },
            None => None,
        }
    }

    /// A block position from its three components.
    pub fn new(x: CoordinateType, y: CoordinateType, z: CoordinateType) -> (coords: BlockCoordinate)
        ensures
            coords == (BlockCoordinate { x, y, z }),
    {
        BlockCoordinate { x, y, z }
    }

    /// Whether this position lies inside a structure of the given size.
    pub fn within(&self, dimensions: BlockCoordinate) -> (inside: bool)
        ensures
            inside == self.spec_within(dimensions),
    {
        self.x < dimensions.x && self.y < dimensions.y && self.z < dimensions.z
    }

    /// Moves one block along `direction`. Fails, without moving, where the step would leave
    /// the range of coordinates: `Negative` below zero, `Positive` past the largest number.
    pub fn step(&self, direction: BlockDirection) -> (next: Result<BlockCoordinate, BoundsError>)
        ensures
            match next {
                Ok(coords) => self.spec_step(direction) == Some(coords),
                Err(_) => self.spec_step(direction).is_none(),
            },
            next == Err::<BlockCoordinate, BoundsError>(BoundsError::Negative) <==> {
                let (dx, dy, dz) = direction.spec_delta();
                self.x + dx < 0 || self.y + dy < 0 || self.z + dz < 0
            },
    {
        match direction {
            BlockDirection::PosX => if self.x == u64::MAX {
                Err(BoundsError::Positive)
            } else {
                Ok(BlockCoordinate { x: self.x + 1, y: self.y, z: self.z })
            },
            BlockDirection::NegX => if self.x == 0 {
                Err(BoundsError::Negative)
            } else {
                Ok(BlockCoordinate { x: self.x - 1, y: self.y, z: self.z })
            },
            BlockDirection::PosY => if self.y == u64::MAX {
                Err(BoundsError::Positive)
            } else {
                Ok(BlockCoordinate { x: self.x, y: self.y + 1, z: self.z })
            },
            BlockDirection::NegY => if self.y == 0 {
                Err(BoundsError::Negative)
            } else {
                Ok(BlockCoordinate { x: self.x, y: self.y - 1, z: self.z })
            },
            BlockDirection::PosZ => if self.z == u64::MAX {
                Err(BoundsError::Positive)
            } else {
                Ok(BlockCoordinate { x: self.x, y: self.y, z: self.z + 1 })
            },
            BlockDirection::NegZ => if self.z == 0 {
                Err(BoundsError::Negative)
            } else {
                Ok(BlockCoordinate { x: self.x, y: self.y, z: self.z - 1 })
            },
        }
    }

    /// Moves one block along `direction` inside a structure of the given size. A step that
    /// would leave the structure fails: the caller has no neighbor there.
    pub fn neighbor(&self, direction: BlockDirection, dimensions: BlockCoordinate) -> (next: Result<
        BlockCoordinate,
        BoundsError,
    >)
        ensures
            match next {
                Ok(coords) => self.spec_neighbor(direction, dimensions) == Some(coords),
                Err(_) => self.spec_neighbor(direction, dimensions).is_none(),
            },
            next == Err::<BlockCoordinate, BoundsError>(BoundsError::Negative) <==> {
                let (dx, dy, dz) = direction.spec_delta();
                self.x + dx < 0 || self.y + dy < 0 || self.z + dz < 0
            },
    {
        match self.step(direction) {
            Ok(coords) => if coords.within(dimensions) {
                Ok(coords)
            } else {
                Err(BoundsError::Positive)
            },
            Err(e) => Err(e),
        }
    }
}

impl ChunkCoordinate {
    /// The chunk that holds the block at `coords`.
    pub open spec fn spec_for_block_coordinate(coords: BlockCoordinate) -> ChunkCoordinate {
        ChunkCoordinate {
            x: coords.x / CHUNK_DIMENSIONS,
            y: coords.y / CHUNK_DIMENSIONS,
            z: coords.z / CHUNK_DIMENSIONS,
        }
    }

    /// Whether every component lies below the matching component of `dimensions`.
    pub open spec fn spec_within(self, dimensions: ChunkCoordinate) -> bool {
        self.x < dimensions.x && self.y < dimensions.y && self.z < dimensions.z
    }

    /// A chunk position from its three components.
    pub fn new(x: CoordinateType, y: CoordinateType, z: CoordinateType) -> (coords: ChunkCoordinate)
        ensures
            coords == (ChunkCoordinate { x, y, z }),
    {
        ChunkCoordinate { x, y, z }
    }

    /// The chunk that holds the block at `coords`.
    pub fn for_block_coordinate(coords: BlockCoordinate) -> (chunk: ChunkCoordinate)
        ensures
            chunk == ChunkCoordinate::spec_for_block_coordinate(coords),
    {
        ChunkCoordinate {
            x: coords.x / CHUNK_DIMENSIONS,
            y: coords.y / CHUNK_DIMENSIONS,
            z: coords.z / CHUNK_DIMENSIONS,
        }
    }

    /// Whether this position lies inside a structure of the given size in chunks.
    pub fn within(&self, dimensions: ChunkCoordinate) -> (inside: bool)
        ensures
            inside == self.spec_within(dimensions),
    {
        self.x < dimensions.x && self.y < dimensions.y && self.z < dimensions.z
    }
}

impl ChunkBlockCoordinate {
    /// The place inside its chunk of the block at `coords`.
    pub open spec fn spec_for_block_coordinate(coords: BlockCoordinate) -> ChunkBlockCoordinate {
        ChunkBlockCoordinate {
            x: coords.x % CHUNK_DIMENSIONS,
            y: coords.y % CHUNK_DIMENSIONS,
            z: coords.z % CHUNK_DIMENSIONS,
        }
    }

    /// Whether every component lies inside a chunk.
    pub open spec fn spec_valid(self) -> bool {
        self.x < CHUNK_DIMENSIONS && self.y < CHUNK_DIMENSIONS && self.z < CHUNK_DIMENSIONS
    }

    /// The place of this block in a chunk's flat storage.
    pub open spec fn spec_flatten(self) -> int {
        self.z * CHUNK_DIMENSIONS * CHUNK_DIMENSIONS + self.y * CHUNK_DIMENSIONS + self.x
    }

    /// The place inside its chunk of the block at `coords`.
    pub fn for_block_coordinate(coords: BlockCoordinate) -> (inner: ChunkBlockCoordinate)
        ensures
            inner == ChunkBlockCoordinate::spec_for_block_coordinate(coords),
            inner.spec_valid(),
    {
        ChunkBlockCoordinate {
            x: coords.x % CHUNK_DIMENSIONS,
            y: coords.y % CHUNK_DIMENSIONS,
            z: coords.z % CHUNK_DIMENSIONS,
        }
    }

    /// The place of this block in a chunk's flat storage.
    pub fn flatten(&self) -> (index: usize)
        requires
            self.spec_valid(),
        ensures
            index == self.spec_flatten(),
            index < CHUNK_DIMENSIONS * CHUNK_DIMENSIONS * CHUNK_DIMENSIONS,
    {
        (self.z * CHUNK_DIMENSIONS * CHUNK_DIMENSIONS + self.y * CHUNK_DIMENSIONS + self.x) as usize
    }
}

impl UnboundBlockCoordinate {
    /// A position from its three components.
    pub fn new(x: UnboundCoordinateType, y: UnboundCoordinateType, z: UnboundCoordinateType) -> (coords:
        UnboundBlockCoordinate)
        ensures
            coords == (UnboundBlockCoordinate { x, y, z }),
    {
        UnboundBlockCoordinate { x, y, z }
    }
}

impl UnboundChunkCoordinate {
    /// A position from its three components.
    pub fn new(x: UnboundCoordinateType, y: UnboundCoordinateType, z: UnboundCoordinateType) -> (coords:
        UnboundChunkCoordinate)
        ensures
            coords == (UnboundChunkCoordinate { x, y, z }),
    {
        UnboundChunkCoordinate { x, y, z }
    }
}

/// Within a chunk, a block's place in flat storage determines its position.
pub proof fn lemma_chunk_flatten_injective(a: ChunkBlockCoordinate, b: ChunkBlockCoordinate)
    requires
        a.spec_valid(),
        b.spec_valid(),
        a.spec_flatten() == b.spec_flatten(),
    ensures
        a == b,
{
}

} // verus!
