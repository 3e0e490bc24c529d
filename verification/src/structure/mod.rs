//! Structures: everything that is made of blocks, grouped into chunks.

use vstd::prelude::*;

use crate::block::block_face::BlockFace;
use crate::block::{Block, AIR_BLOCK_ID};
use crate::registry::{Identifiable, Registry};
use crate::structure::base_structure::{BaseStructure, BlockChangedEvent};
use crate::structure::chunk::Chunk;
use crate::structure::coordinates::{
    BlockCoordinate, ChunkCoordinate, UnboundBlockCoordinate, UnboundChunkCoordinate,
};
use crate::structure::dynamic_structure::DynamicStructure;
use crate::structure::full_structure::FullStructure;
use crate::structure::structure_block::StructureBlock;

pub mod base_structure;
pub mod chunk;
pub mod chunk_table;
pub mod coordinates;
pub mod dynamic_structure;
pub mod full_structure;
pub mod structure_block;

verus! {

/// How far a chunk is on its way into memory.
#[derive(Debug, Clone, Copy, PartialEq, Eq, Structural)]
pub enum ChunkState {
    /// The chunk does not exist in the structure.
    Invalid,
    /// The chunk is not loaded and not being loaded.
    Unloaded,
    /// The chunk is being loaded and not ready for use.
    Loading,
    /// The chunk is loaded and ready for use.
    Loaded,
}

/// Many blocks, grouped into chunks.
#[derive(Debug)]
pub enum Structure {
    /// A structure that loads and unloads its chunks, such as a planet.
    Dynamic(DynamicStructure),
    /// A structure that has all its chunks loaded at once, such as a ship or an asteroid.
    Full(FullStructure),
}

impl Structure {
    /// The chunk table and blocks of the structure.
    pub open spec fn base(&self) -> BaseStructure {
        match self {
            Structure::Full(fs) => fs.base(),
            Structure::Dynamic(ds) => ds.base(),
        }
    }

    /// The structure's invariant.
    pub open spec fn wf(&self) -> bool {
        match self {
            Structure::Full(fs) => fs.wf(),
            Structure::Dynamic(ds) => ds.wf(),
        }
    }

    /// Whether `self` and `before` are structures of the same kind with the same settings;
    /// their chunks and blocks may differ.
    pub open spec fn spec_same_kind(&self, before: &Structure) -> bool {
        match (self, before) {
            (Structure::Full(a), Structure::Full(b)) => a.spec_loaded() == b.spec_loaded(),
            (Structure::Dynamic(a), Structure::Dynamic(b)) => a.spec_dimensions()
                == b.spec_dimensions(),
            _ => false,
        }
    }

    /// The state of the chunk at `coords`.
    pub open spec fn spec_chunk_state(&self, coords: ChunkCoordinate) -> ChunkState {
        match self {
            Structure::Full(fs) => fs.spec_chunk_state(coords),
            Structure::Dynamic(ds) => ds.spec_chunk_state(coords),
        }
    }

    /// The number of chunks in the x, y and z direction.
    #[inline]
    pub fn chunk_dimensions(&self) -> (dimensions: ChunkCoordinate)
        requires
            self.wf(),
        ensures
            dimensions == self.base().spec_chunk_dimensions(),
    {
        match self {
            Structure::Dynamic(ds) => ChunkCoordinate::new(
                ds.chunk_dimensions(),
                ds.chunk_dimensions(),
                ds.chunk_dimensions(),
            ),
            Structure::Full(fs) => fs.chunk_dimensions(),
        }
    }

    /// The state of the chunk at `coords`.
    pub fn get_chunk_state(&self, coords: ChunkCoordinate) -> (state: ChunkState)
        requires
            self.wf(),
        ensures
            state == self.spec_chunk_state(coords),
    {
        match self {
            Structure::Full(fs) => fs.get_chunk_state(coords),
            Structure::Dynamic(ds) => ds.get_chunk_state(coords),
        }
    }

    /// Whether the chunk at `coords` is loaded and holds nothing but air. A chunk that is not
    /// loaded has no answer but `false`.
    pub fn has_empty_chunk_at(&self, coords: ChunkCoordinate) -> (empty: bool)
        requires
            self.wf(),
        ensures
            empty == match self {
                Structure::Full(fs) => fs.spec_chunk_state(coords) == ChunkState::Loaded
                    && match fs.base().spec_chunk(coords) {
                    Some(chunk) => chunk.spec_is_empty(),
                    None => true,
                },
                Structure::Dynamic(ds) => ds.base().spec_marked_empty(coords),
            },
    {
        match self {
            Structure::Full(fs) => fs.has_empty_chunk_at(coords),
            Structure::Dynamic(ds) => ds.has_empty_chunk_at(coords),
        }
    }

    /// The size of the structure in blocks.
    pub fn block_dimensions(&self) -> (dimensions: BlockCoordinate)
        requires
            self.wf(),
        ensures
            dimensions == self.base().spec_block_dimensions(),
    {
        match self {
            Structure::Full(fs) => fs.block_dimensions(),
            Structure::Dynamic(ds) => ds.block_dimensions(),
        }
    }

    /// The chunk at `coords`, where one is stored: a chunk that is loaded and not only air.
    pub fn chunk_from_chunk_coordinates(&self, coords: ChunkCoordinate) -> (chunk: Option<&Chunk>)
        requires
            self.wf(),
        ensures
            match chunk {
                Some(c) => self.base().spec_chunk(coords) == Some(*c) && c.wf()
                    && c.spec_chunk_coordinates() == coords,
                None => self.base().spec_chunk(coords).is_none(),
            },
    {
        match self {
            Structure::Full(fs) => fs.chunk_from_chunk_coordinates(coords),
            Structure::Dynamic(ds) => ds.chunk_from_chunk_coordinates(coords),
        }
    }

    /// The chunk at `unbound_coords`, where one is stored; coordinates outside the structure,
    /// below zero included, have none.
    pub fn chunk_from_chunk_coordinates_unbound(&self, unbound_coords: UnboundChunkCoordinate) -> (chunk:
        Option<&Chunk>)
        requires
            self.wf(),
        ensures
            match chunk {
                Some(c) => unbound_coords.x >= 0 && unbound_coords.y >= 0 && unbound_coords.z >= 0
                    && self.base().spec_chunk(
                    ChunkCoordinate {
                        x: unbound_coords.x as u64,
                        y: unbound_coords.y as u64,
                        z: unbound_coords.z as u64,
                    },
                ) == Some(*c),
                None => unbound_coords.x < 0 || unbound_coords.y < 0 || unbound_coords.z < 0
                    || self.base().spec_chunk(
                    ChunkCoordinate {
                        x: unbound_coords.x as u64,
                        y: unbound_coords.y as u64,
                        z: unbound_coords.z as u64,
                    },
                ).is_none(),
            },
    {
        match self {
            Structure::Full(fs) => fs.chunk_from_chunk_coordinates_unbound(unbound_coords),
            Structure::Dynamic(ds) => ds.chunk_from_chunk_coordinates_unbound(unbound_coords),
        }
    }

    /// The chunk that holds the block at `coords`, where one is stored.
    pub fn chunk_at_block_coordinates(&self, coords: BlockCoordinate) -> (chunk: Option<&Chunk>)
        requires
            self.wf(),
        ensures
            match chunk {
                Some(c) => self.base().spec_chunk(ChunkCoordinate::spec_for_block_coordinate(coords))
                    == Some(*c) && c.wf(),
                None => self.base().spec_chunk(
                    ChunkCoordinate::spec_for_block_coordinate(coords),
                ).is_none(),
            },
    {
        match self {
            Structure::Full(fs) => fs.chunk_at_block_coordinates(coords),
            Structure::Dynamic(ds) => ds.chunk_at_block_coordinates(coords),
        }
    }

    /// Whether `coords` names a block of the structure. The block need not be loaded.
    pub fn is_within_blocks(&self, coords: BlockCoordinate) -> (inside: bool)
        requires
            self.wf(),
        ensures
            inside == coords.spec_within(self.base().spec_block_dimensions()),
    {
        match self {
            Structure::Full(fs) => fs.is_within_blocks(coords),
            Structure::Dynamic(ds) => ds.is_within_blocks(coords),
        }
    }

    /// Whether the structure has a loaded block at `coords` that is not air.
    pub fn has_block_at(&self, coords: BlockCoordinate) -> (has: bool)
        requires
            self.wf(),
        ensures
            has == (self.base().spec_block_id_at(coords) != AIR_BLOCK_ID),
    {
        match self {
            Structure::Full(fs) => fs.has_block_at(coords),
            Structure::Dynamic(ds) => ds.has_block_at(coords),
        }
    }

    /// The face that the top of the block at `coords` points along: `Top` where no block is
    /// loaded.
    pub fn block_rotation(&self, coords: BlockCoordinate) -> (up: BlockFace)
        requires
            self.wf(),
        ensures
            up == self.base().spec_block_rotation(coords),
            self.base().spec_block_id_at(coords) == AIR_BLOCK_ID ==> up == BlockFace::Top,
    {
        match self {
            Structure::Full(fs) => fs.block_rotation(coords),
            Structure::Dynamic(ds) => ds.block_rotation(coords),
        }
    }

    /// The numeric id of the block at `coords`: air where the chunk is not loaded, holds only
    /// air or lies outside the structure.
    pub fn block_id_at(&self, coords: BlockCoordinate) -> (id: u16)
        requires
            self.wf(),
        ensures
            id == self.base().spec_block_id_at(coords),
    {
        match self {
            Structure::Full(fs) => fs.block_id_at(coords),
            Structure::Dynamic(ds) => ds.block_id_at(coords),
        }
    }

    /// The kind of block at `coords`.
    pub fn block_at<'a>(&self, coords: BlockCoordinate, blocks: &'a Registry<Block>) -> (block:
        &'a Block)
        requires
            self.wf(),
            self.base().spec_block_id_at(coords) < blocks.items().len(),
        ensures
            blocks.spec_get(self.base().spec_block_id_at(coords)) == Some(*block),
    {
        match self {
            Structure::Full(fs) => fs.block_at(coords, blocks),
            Structure::Dynamic(ds) => ds.block_at(coords, blocks),
        }
    }

    /// Stores `chunk` at its own coordinates in place of what was there. A chunk of air is
    /// not stored: its place is marked as empty. Nobody is told of the change.
    pub fn set_chunk(&mut self, chunk: Chunk)
        requires
            old(self).wf(),
            chunk.wf(),
            chunk.spec_chunk_coordinates().spec_within(old(self).base().spec_chunk_dimensions()),
        ensures
            final(self).wf(),
            final(self).spec_same_kind(old(self)),
            final(self).base().spec_differs_at(
                &old(self).base(),
                chunk.spec_chunk_coordinates(),
                if chunk.spec_is_empty() {
                    None
                } else {
                    Some(chunk)
                },
                chunk.spec_is_empty(),
            ),
    {
        match self {
            Structure::Full(fs) => fs.set_chunk(chunk),
            Structure::Dynamic(ds) => ds.set_chunk(chunk),
        }
    }

    /// Makes the chunk at `coords` a chunk of air. Nobody is told of the change.
    pub fn set_to_empty_chunk(&mut self, coords: ChunkCoordinate)
        requires
            old(self).wf(),
            coords.spec_within(old(self).base().spec_chunk_dimensions()),
        ensures
            final(self).wf(),
            final(self).spec_same_kind(old(self)),
            final(self).base().spec_differs_at(&old(self).base(), coords, None, true),
    {
        match self {
            Structure::Full(fs) => fs.set_to_empty_chunk(coords),
            Structure::Dynamic(ds) => ds.set_to_empty_chunk(coords),
        }
    }

    /// Takes the chunk at `coords` out of the structure and hands it to the caller, who is to
    /// put it back with `set_chunk`.
    pub fn take_chunk(&mut self, coords: ChunkCoordinate) -> (chunk: Option<Chunk>)
        requires
            old(self).wf(),
        ensures
            final(self).wf(),
            final(self).spec_same_kind(old(self)),
            chunk == old(self).base().spec_chunk(coords),
            final(self).base().spec_differs_at(
                &old(self).base(),
                coords,
                None,
                old(self).base().spec_marked_empty(coords),
            ),
    {
        match self {
            Structure::Full(fs) => fs.take_chunk(coords),
            Structure::Dynamic(ds) => ds.take_chunk(coords),
        }
    }

    /// Whether `coords` names a chunk of the structure.
    #[inline]
    pub fn chunk_coords_within(&self, coords: ChunkCoordinate) -> (inside: bool)
        ensures
            inside == coords.spec_within(self.base().spec_chunk_dimensions()),
    {
        match self {
            Structure::Full(fs) => fs.chunk_coords_within(coords),
            Structure::Dynamic(ds) => ds.chunk_coords_within(coords),
        }
    }

    /// Puts a block of the kind `block`, its top pointing along `block_up`, at `coords`.
    /// Where a block of that kind is there already, nothing changes and nothing is returned;
    /// otherwise the change is returned for whoever has to be told of it.
    pub fn set_block_at(&mut self, coords: BlockCoordinate, block: &Block, block_up: BlockFace) -> (event:
        Option<BlockChangedEvent>)
        requires
            old(self).wf(),
            coords.spec_within(old(self).base().spec_block_dimensions()),
        ensures
            final(self).wf(),
            final(self).spec_same_kind(old(self)),
            match event {
                Some(ev) => {
                    &&& ev == (BlockChangedEvent {
                        block: StructureBlock { x: coords.x, y: coords.y, z: coords.z },
                        old_block: old(self).base().spec_block_id_at(coords),
                        new_block: block.spec_id(),
                        old_block_rotation: old(self).base().spec_block_rotation(coords),
                        new_block_rotation: block_up,
                    })
                    &&& ev.old_block != ev.new_block
                    &&& final(self).base().spec_block_set(
                        &old(self).base(),
                        coords,
                        block.spec_id(),
                        block_up,
                    )
                },
                None => old(self).base().spec_block_id_at(coords) == block.spec_id()
                    && *final(self) == *old(self),
            },
    {
        match self {
            Structure::Full(fs) => fs.set_block_at(coords, block, block_up),
            Structure::Dynamic(ds) => ds.set_block_at(coords, block, block_up),
        }
    }

    /// Puts air at `coords`. Where air is there already, nothing changes and nothing is
    /// returned; otherwise the change is returned for whoever has to be told of it.
    pub fn remove_block_at(&mut self, coords: BlockCoordinate) -> (event: Option<BlockChangedEvent>)
        requires
            old(self).wf(),
            coords.spec_within(old(self).base().spec_block_dimensions()),
        ensures
            final(self).wf(),
            final(self).spec_same_kind(old(self)),
            match event {
                Some(ev) => {
                    &&& ev == (BlockChangedEvent {
                        block: StructureBlock { x: coords.x, y: coords.y, z: coords.z },
                        old_block: old(self).base().spec_block_id_at(coords),
                        new_block: AIR_BLOCK_ID,
                        old_block_rotation: old(self).base().spec_block_rotation(coords),
                        new_block_rotation: BlockFace::Top,
                    })
                    &&& ev.old_block != AIR_BLOCK_ID
                    &&& final(self).base().spec_block_set(
                        &old(self).base(),
                        coords,
                        AIR_BLOCK_ID,
                        BlockFace::Top,
                    )
                },
                None => old(self).base().spec_block_id_at(coords) == AIR_BLOCK_ID && *final(self)
                    == *old(self),
            },
    {
        match self {
            Structure::Full(fs) => fs.remove_block_at(coords),
            Structure::Dynamic(ds) => ds.remove_block_at(coords),
        }
    }
}

/// What went wrong when a block coordinate was moved by an offset.
#[derive(Debug, Clone, Copy, PartialEq, Eq, Structural)]
pub enum RotationError {
    /// At least one coordinate lies outside the structure in the negative direction. The
    /// field holds the coordinates, those outside included.
    NegativeResult(UnboundBlockCoordinate),
    /// At least one coordinate lies outside the structure in the positive direction. The
    /// field holds the coordinates, those outside included.
    PositiveResult(BlockCoordinate),
}

/// Where `delta` leads from `block_coord` for a block whose top points along `block_up`:
/// with the top up, each offset moves its own coordinate; turned otherwise, the vertical
/// offset moves the coordinate that the top points along, reversed where the top points in
/// the negative direction, and the offset of that coordinate moves the vertical one.
pub open spec fn spec_rotated(
    block_coord: BlockCoordinate,
    delta: UnboundBlockCoordinate,
    block_up: BlockFace,
) -> (int, int, int) {
    match block_up {
        BlockFace::Front => (
            block_coord.x + delta.x,
            block_coord.y + delta.z,
            block_coord.z + delta.y,
        ),
        BlockFace::Back => (
            block_coord.x + delta.x,
            block_coord.y + delta.z,
            block_coord.z - delta.y,
        ),
        BlockFace::Top => (
            block_coord.x + delta.x,
            block_coord.y + delta.y,
            block_coord.z + delta.z,
        ),
        BlockFace::Bottom => (
            block_coord.x + delta.x,
            block_coord.y - delta.y,
            block_coord.z + delta.z,
        ),
        BlockFace::Right => (
            block_coord.x + delta.y,
            block_coord.y + delta.x,
            block_coord.z + delta.z,
        ),
        BlockFace::Left => (
            block_coord.x - delta.y,
            block_coord.y + delta.x,
            block_coord.z + delta.z,
        ),
    }
}

/// Applies the offsets `delta` to `block_coord` as they apply on the side of a structure
/// whose up is `block_up`. Fails where the result lies outside a structure of the size
/// `dimensions`: below zero with `NegativeResult`, else at or past the size with
/// `PositiveResult`.
pub fn rotate(
    block_coord: BlockCoordinate,
    delta: UnboundBlockCoordinate,
    dimensions: BlockCoordinate,
    block_up: BlockFace,
) -> (rotated: Result<BlockCoordinate, RotationError>)
    requires
        i64::MIN <= spec_rotated(block_coord, delta, block_up).0 <= i64::MAX,
        i64::MIN <= spec_rotated(block_coord, delta, block_up).1 <= i64::MAX,
        i64::MIN <= spec_rotated(block_coord, delta, block_up).2 <= i64::MAX,
    ensures
        ({
            let (x, y, z) = spec_rotated(block_coord, delta, block_up);
            if x < 0 || y < 0 || z < 0 {
                rotated == Err::<BlockCoordinate, RotationError>(
                    RotationError::NegativeResult(
                        UnboundBlockCoordinate { x: x as i64, y: y as i64, z: z as i64 },
                    ),
                )
            } else if x >= dimensions.x || y >= dimensions.y || z >= dimensions.z {
                rotated == Err::<BlockCoordinate, RotationError>(
                    RotationError::PositiveResult(
                        BlockCoordinate { x: x as u64, y: y as u64, z: z as u64 },
                    ),
                )
            } else {
                rotated == Ok::<BlockCoordinate, RotationError>(
                    BlockCoordinate { x: x as u64, y: y as u64, z: z as u64 },
                )
            }
        }),
{
    let (bx, by, bz) = (block_coord.x as i128, block_coord.y as i128, block_coord.z as i128);
    let (dx, dy, dz) = (delta.x as i128, delta.y as i128, delta.z as i128);
    let (x, y, z) = match block_up {
        BlockFace::Front => (bx + dx, by + dz, bz + dy),
        BlockFace::Back => (bx + dx, by + dz, bz - dy),
        BlockFace::Top => (bx + dx, by + dy, bz + dz),
        BlockFace::Bottom => (bx + dx, by - dy, bz + dz),
        BlockFace::Right => (bx + dy, by + dx, bz + dz),
        BlockFace::Left => (bx - dy, by + dx, bz + dz),
    };
    if x < 0 || y < 0 || z < 0 {
        Err(
            RotationError::NegativeResult(
                UnboundBlockCoordinate { x: x as i64, y: y as i64, z: z as i64 },
            ),
        )
    } else {
        let coords = BlockCoordinate { x: x as u64, y: y as u64, z: z as u64 };
        if coords.x >= dimensions.x || coords.y >= dimensions.y || coords.z >= dimensions.z {
            Err(RotationError::PositiveResult(coords))
        } else {
            Ok(coords)
        }
    }
}

/// Moving one block along the direction that a face points in is what `rotate` does with
/// the offset of that face on an upright block.
pub proof fn law_rotate_follows_direction(
    block_coord: BlockCoordinate,
    face: BlockFace,
    block_up: BlockFace,
)
    ensures
        ({
            let (dx, dy, dz) = BlockFace::Top.spec_direction_of(face).spec_delta();
            let delta = UnboundBlockCoordinate { x: dx as i64, y: dy as i64, z: dz as i64 };
            let (tx, ty, tz) = block_up.spec_direction_of(face).spec_delta();
            spec_rotated(block_coord, delta, block_up) == (
                block_coord.x + tx,
                block_coord.y + ty,
                block_coord.z + tz,
            )
        }),
{
}

} // verus!
