//! A block of a structure, named by where it is.

use vstd::prelude::*;

use crate::block::Block;
use crate::registry::Registry;
use crate::structure::coordinates::{BlockCoordinate, CoordinateType, CHUNK_DIMENSIONS};
use crate::structure::Structure;

verus! {

/// The place of one block in a structure.
#[derive(Clone, Debug, Copy, PartialEq, Eq, Structural)]
pub struct StructureBlock {
    /// Blocks along x.
    pub x: CoordinateType,
    /// Blocks along y.
    pub y: CoordinateType,
    /// Blocks along z.
    pub z: CoordinateType,
}

impl StructureBlock {
    /// The block's coordinates.
    pub open spec fn spec_coords(&self) -> BlockCoordinate {
        BlockCoordinate { x: self.x, y: self.y, z: self.z }
    }

    /// Blocks along x.
    #[inline]
    pub fn x(&self) -> (x: CoordinateType)
        ensures
            x == self.x,
    {
        self.x
    }

    /// Blocks along y.
    #[inline]
    pub fn y(&self) -> (y: CoordinateType)
        ensures
            y == self.y,
    {
        self.y
    }

    /// Blocks along z.
    #[inline]
    pub fn z(&self) -> (z: CoordinateType)
        ensures
            z == self.z,
    {
        self.z
    }

    /// The block at the given place.
    pub fn new(x: CoordinateType, y: CoordinateType, z: CoordinateType) -> (block: StructureBlock)
        ensures
            block == (StructureBlock { x, y, z }),
    {
        StructureBlock { x, y, z }
    }

    /// The block at `coords`.
    pub fn at(coords: BlockCoordinate) -> (block: StructureBlock)
        ensures
            block.spec_coords() == coords,
    {
        StructureBlock { x: coords.x, y: coords.y, z: coords.z }
    }

    /// The block's coordinates.
    pub fn coords(&self) -> (coords: BlockCoordinate)
        ensures
            coords == self.spec_coords(),
    {
        BlockCoordinate { x: self.x, y: self.y, z: self.z }
    }

    /// The numeric id of the block that `structure` has at this place.
    #[inline]
    pub fn block_id(&self, structure: &Structure) -> (id: u16)
        requires
            structure.wf(),
        ensures
            id == structure.base().spec_block_id_at(self.spec_coords()),
    {
        structure.block_id_at(self.coords())
    }

    /// The kind of block that `structure` has at this place.
    #[inline]
    pub fn block<'a>(&self, structure: &Structure, blocks: &'a Registry<Block>) -> (block: &'a Block)
        requires
            structure.wf(),
            structure.base().spec_block_id_at(self.spec_coords()) < blocks.items().len(),
        ensures
            blocks.spec_get(structure.base().spec_block_id_at(self.spec_coords())) == Some(*block),
    {
        blocks.from_numeric_id(self.block_id(structure))
    }

    /// The x coordinate of the chunk that holds this block.
    #[inline]
    pub fn chunk_coord_x(&self) -> (x: CoordinateType)
        ensures
            x == self.x / CHUNK_DIMENSIONS,
    {
        self.x / CHUNK_DIMENSIONS
    }

    /// The y coordinate of the chunk that holds this block.
    #[inline]
    pub fn chunk_coord_y(&self) -> (y: CoordinateType)
        ensures
            y == self.y / CHUNK_DIMENSIONS,
    {
        self.y / CHUNK_DIMENSIONS
    }

    /// The z coordinate of the chunk that holds this block.
    #[inline]
    pub fn chunk_coord_z(&self) -> (z: CoordinateType)
        ensures
            z == self.z / CHUNK_DIMENSIONS,
    {
        self.z / CHUNK_DIMENSIONS
    }
}

} // verus!
