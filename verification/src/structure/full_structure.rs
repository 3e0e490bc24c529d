//! Structures that have all their chunks loaded for as long as they exist, such as ships.

use vstd::prelude::*;

use crate::block::block_face::BlockFace;
use crate::block::{Block, AIR_BLOCK_ID};
use crate::registry::{Identifiable, Registry};
use crate::structure::base_structure::{BaseStructure, BlockChangedEvent, spec_volume};
use crate::structure::chunk::Chunk;
use crate::structure::coordinates::{
    BlockCoordinate, ChunkCoordinate, CoordinateType, UnboundChunkCoordinate, CHUNK_DIMENSIONS,
};
use crate::structure::structure_block::StructureBlock;
use crate::structure::ChunkState;

verus! {

/// A structure that has all its chunks loaded for as long as it exists.
#[derive(Debug)]
pub struct FullStructure {
    base_structure: BaseStructure,
    loaded: bool,
}

impl FullStructure {
    /// The chunk table and blocks of the structure.
    pub closed spec fn base(&self) -> BaseStructure {
        self.base_structure
    }

    /// Whether the structure has been marked as completely loaded.
    pub closed spec fn spec_loaded(&self) -> bool {
        self.loaded
    }

    /// The structure's invariant.
    pub open spec fn wf(&self) -> bool {
        self.base().wf()
    }

    /// Whether `coords`, read as chunk coordinates, lies below the size of the structure
    /// counted in blocks.
    pub open spec fn spec_is_within_chunks(&self, coords: ChunkCoordinate) -> bool {
        &&& coords.x < self.base().spec_block_dimensions().x
        &&& coords.y < self.base().spec_block_dimensions().y
        &&& coords.z < self.base().spec_block_dimensions().z
    }

    /// The state of the chunk at `coords`.
    pub open spec fn spec_chunk_state(&self, coords: ChunkCoordinate) -> ChunkState {
        if !self.spec_is_within_chunks(coords) {
            ChunkState::Invalid
        } else if self.spec_loaded() {
            ChunkState::Loaded
        } else {
            ChunkState::Loading
        }
    }

    /// A structure of the given size in chunks, without blocks and not yet marked as loaded.
    pub fn new(dimensions: ChunkCoordinate) -> (structure: FullStructure)
        requires
            spec_volume(dimensions) <= usize::MAX,
            dimensions.x * CHUNK_DIMENSIONS <= u64::MAX,
            dimensions.y * CHUNK_DIMENSIONS <= u64::MAX,
            dimensions.z * CHUNK_DIMENSIONS <= u64::MAX,
        ensures
            structure.wf(),
            !structure.spec_loaded(),
            structure.base().spec_chunk_dimensions() == dimensions,
            forall|coords: ChunkCoordinate| #[trigger]
                structure.base().spec_chunk(coords).is_none(),
            forall|coords: ChunkCoordinate| !#[trigger] structure.base().spec_marked_empty(coords),
    {
        FullStructure { base_structure: BaseStructure::new(dimensions), loaded: false }
    }

    /// Marks this structure as completely loaded.
    pub fn set_loaded(&mut self)
        ensures
            final(self).spec_loaded(),
            final(self).base() == old(self).base(),
    {
        self.loaded = true;
    }

    /// The state of the chunk at `coords`: `Invalid` outside the structure, else `Loaded`
    /// once the structure has been marked as loaded and `Loading` before.
    pub fn get_chunk_state(&self, coords: ChunkCoordinate) -> (state: ChunkState)
        requires
            self.wf(),
        ensures
            state == self.spec_chunk_state(coords),
    {
        if !self.is_within_chunks(coords) {
            ChunkState::Invalid
        } else if self.loaded {
            ChunkState::Loaded
        } else {
            ChunkState::Loading
        }
    }

    /// Whether `coords`, read as chunk coordinates, lies below the size of the structure
    /// counted in blocks.
    pub fn is_within_chunks(&self, coords: ChunkCoordinate) -> (inside: bool)
        requires
            self.wf(),
        ensures
            inside == self.spec_is_within_chunks(coords),
    {
        let dimensions = self.block_dimensions();
        coords.x < dimensions.x && coords.y < dimensions.y && coords.z < dimensions.z
    }

    /// Whether the chunk at `coords` is loaded and holds nothing but air.
    pub fn has_empty_chunk_at(&self, coords: ChunkCoordinate) -> (empty: bool)
        requires
            self.wf(),
        ensures
            empty == (self.spec_chunk_state(coords) == ChunkState::Loaded && match self.base().spec_chunk(
                coords,
            ) {
                Some(chunk) => chunk.spec_is_empty(),
                None => true,
            }),
    {
        match self.get_chunk_state(coords) {
            ChunkState::Loaded => match self.chunk_from_chunk_coordinates(coords) {
                Some(chunk) => chunk.is_empty(),
                None => true,
            },
            _ => false,
        }
    }

    /// The size of the structure in chunks.
    pub fn chunk_dimensions(&self) -> (dimensions: ChunkCoordinate)
        ensures
            dimensions == self.base().spec_chunk_dimensions(),
    {
        self.base_structure.chunk_dimensions()
    }

    /// The number of chunks in the x direction.
    #[inline(always)]
    pub fn chunks_width(&self) -> (width: CoordinateType)
        ensures
            width == self.base().spec_chunk_dimensions().x,
    {
        self.base_structure.chunk_dimensions().x
    }

    /// The number of chunks in the y direction.
    #[inline(always)]
    pub fn chunks_height(&self) -> (height: CoordinateType)
        ensures
            height == self.base().spec_chunk_dimensions().y,
    {
        self.base_structure.chunk_dimensions().y
    }

    /// The number of chunks in the z direction.
    #[inline(always)]
    pub fn chunks_length(&self) -> (length: CoordinateType)
        ensures
            length == self.base().spec_chunk_dimensions().z,
    {
        self.base_structure.chunk_dimensions().z
    }

    /// The number of blocks in the x direction.
    #[inline(always)]
    pub fn blocks_width(&self) -> (width: CoordinateType)
        requires
            self.wf(),
        ensures
            width == self.base().spec_block_dimensions().x,
    {
        self.base_structure.block_dimensions().x
    }

    /// The number of blocks in the y direction.
    #[inline(always)]
    pub fn blocks_height(&self) -> (height: CoordinateType)
        requires
            self.wf(),
        ensures
            height == self.base().spec_block_dimensions().y,
    {
        self.base_structure.block_dimensions().y
    }

    /// The number of blocks in the z direction.
    #[inline(always)]
    pub fn blocks_length(&self) -> (length: CoordinateType)
        requires
            self.wf(),
        ensures
            length == self.base().spec_block_dimensions().z,
    {
        self.base_structure.block_dimensions().z
    }

    /// The size of the structure in blocks.
    pub fn block_dimensions(&self) -> (dimensions: BlockCoordinate)
        requires
            self.wf(),
        ensures
            dimensions == self.base().spec_block_dimensions(),
    {
        self.base_structure.block_dimensions()
    }

    /// The chunk at `coords`, where one is stored: a chunk that is loaded and not only air.
    pub fn chunk_from_chunk_coordinates(&self, coords: ChunkCoordinate) -> (chunk: Option<&Chunk>)
        requires
            self.wf(),
        ensures
            match chunk {
                Some(c) => self.base().spec_chunk(coords) == Some(*c) && c.wf()
                    && c.spec_chunk_coordinates() == coords,
                None => self.base().spec_chunk(coords).is_none(),
            },
    {
        self.base_structure.chunk_from_chunk_coordinates(coords)
    }

    /// The chunk at `unbound_coords`, where one is stored; coordinates outside the structure,
    /// below zero included, have none.
    pub fn chunk_from_chunk_coordinates_unbound(&self, unbound_coords: UnboundChunkCoordinate) -> (chunk:
        Option<&Chunk>)
        requires
            self.wf(),
        ensures
            match chunk {
                Some(c) => unbound_coords.x >= 0 && unbound_coords.y >= 0 && unbound_coords.z >= 0
                    && self.base().spec_chunk(
                    ChunkCoordinate {
                        x: unbound_coords.x as u64,
                        y: unbound_coords.y as u64,
                        z: unbound_coords.z as u64,
                    },
                ) == Some(*c),
                None => unbound_coords.x < 0 || unbound_coords.y < 0 || unbound_coords.z < 0
                    || self.base().spec_chunk(
                    ChunkCoordinate {
                        x: unbound_coords.x as u64,
                        y: unbound_coords.y as u64,
                        z: unbound_coords.z as u64,
                    },
                ).is_none(),
            },
    {
        self.base_structure.chunk_from_chunk_coordinates_unbound(unbound_coords)
    }

    /// The chunk that holds the block at `coords`, where one is stored.
    pub fn chunk_at_block_coordinates(&self, coords: BlockCoordinate) -> (chunk: Option<&Chunk>)
        requires
            self.wf(),
        ensures
            match chunk {
                Some(c) => self.base().spec_chunk(ChunkCoordinate::spec_for_block_coordinate(coords))
                    == Some(*c) && c.wf(),
                None => self.base().spec_chunk(
                    ChunkCoordinate::spec_for_block_coordinate(coords),
                ).is_none(),
            },
    {
        self.base_structure.chunk_at_block_coordinates(coords)
    }

    /// Whether `coords` names a block of the structure. The block need not be loaded.
    pub fn is_within_blocks(&self, coords: BlockCoordinate) -> (inside: bool)
        requires
            self.wf(),
        ensures
            inside == coords.spec_within(self.base().spec_block_dimensions()),
    {
        self.base_structure.is_within_blocks(coords)
    }

    /// Whether the structure has a loaded block at `coords` that is not air.
    pub fn has_block_at(&self, coords: BlockCoordinate) -> (has: bool)
        requires
            self.wf(),
        ensures
            has == (self.base().spec_block_id_at(coords) != AIR_BLOCK_ID),
    {
        self.base_structure.has_block_at(coords)
    }

    /// The face that the top of the block at `coords` points along: `Top` where no block is
    /// loaded.
    pub fn block_rotation(&self, coords: BlockCoordinate) -> (up: BlockFace)
        requires
            self.wf(),
        ensures
            up == self.base().spec_block_rotation(coords),
            self.base().spec_block_id_at(coords) == AIR_BLOCK_ID ==> up == BlockFace::Top,
    {
        self.base_structure.block_rotation(coords)
    }

    /// The numeric id of the block at `coords`: air where the chunk is not loaded, holds only
    /// air or lies outside the structure.
    pub fn block_id_at(&self, coords: BlockCoordinate) -> (id: u16)
        requires
            self.wf(),
        ensures
            id == self.base().spec_block_id_at(coords),
    {
        self.base_structure.block_id_at(coords)
    }

    /// The kind of block at `coords`.
    pub fn block_at<'a>(&self, coords: BlockCoordinate, blocks: &'a Registry<Block>) -> (block:
        &'a Block)
        requires
            self.wf(),
            self.base().spec_block_id_at(coords) < blocks.items().len(),
        ensures
            blocks.spec_get(self.base().spec_block_id_at(coords)) == Some(*block),
    {
        self.base_structure.block_at(coords, blocks)
    }

    /// Stores `chunk` at its own coordinates in place of what was there. A chunk of air is
    /// not stored: its place is marked as empty. Nobody is told of the change.
    pub fn set_chunk(&mut self, chunk: Chunk)
        requires
            old(self).wf(),
            chunk.wf(),
            chunk.spec_chunk_coordinates().spec_within(old(self).base().spec_chunk_dimensions()),
        ensures
            final(self).wf(),
            final(self).spec_loaded() == old(self).spec_loaded(),
            final(self).base().spec_differs_at(
                &old(self).base(),
                chunk.spec_chunk_coordinates(),
                if chunk.spec_is_empty() {
                    None
                } else {
                    Some(chunk)
                },
                chunk.spec_is_empty(),
            ),
    {
        self.base_structure.set_chunk(chunk)
    }

    /// Makes the chunk at `coords` a chunk of air. Nobody is told of the change.
    pub fn set_to_empty_chunk(&mut self, coords: ChunkCoordinate)
        requires
            old(self).wf(),
            coords.spec_within(old(self).base().spec_chunk_dimensions()),
        ensures
            final(self).wf(),
            final(self).spec_loaded() == old(self).spec_loaded(),
            final(self).base().spec_differs_at(&old(self).base(), coords, None, true),
    {
        self.base_structure.set_to_empty_chunk(coords)
    }

    /// Takes the chunk at `coords` out of the structure and hands it to the caller, who is to
    /// put it back with `set_chunk`.
    pub fn take_chunk(&mut self, coords: ChunkCoordinate) -> (chunk: Option<Chunk>)
        requires
            old(self).wf(),
        ensures
            final(self).wf(),
            final(self).spec_loaded() == old(self).spec_loaded(),
            chunk == old(self).base().spec_chunk(coords),
            final(self).base().spec_differs_at(
                &old(self).base(),
                coords,
                None,
                old(self).base().spec_marked_empty(coords),
            ),
    {
        self.base_structure.take_chunk(coords)
    }

    /// Whether `coords` names a chunk of the structure.
    #[inline]
    pub fn chunk_coords_within(&self, coords: ChunkCoordinate) -> (inside: bool)
        ensures
            inside == coords.spec_within(self.base().spec_chunk_dimensions()),
    {
        self.base_structure.chunk_coords_within(coords)
    }

    /// Puts a block of the kind `block`, its top pointing along `block_up`, at `coords`.
    /// Where a block of that kind is there already, nothing changes and nothing is returned;
    /// otherwise the change is returned for whoever has to be told of it.
    pub fn set_block_at(&mut self, coords: BlockCoordinate, block: &Block, block_up: BlockFace) -> (event:
        Option<BlockChangedEvent>)
        requires
            old(self).wf(),
            coords.spec_within(old(self).base().spec_block_dimensions()),
        ensures
            final(self).wf(),
            final(self).spec_loaded() == old(self).spec_loaded(),
            match event {
                Some(ev) => {
                    &&& ev == (BlockChangedEvent {
                        block: StructureBlock { x: coords.x, y: coords.y, z: coords.z },
                        old_block: old(self).base().spec_block_id_at(coords),
                        new_block: block.spec_id(),
                        old_block_rotation: old(self).base().spec_block_rotation(coords),
                        new_block_rotation: block_up,
                    })
                    &&& ev.old_block != ev.new_block
                    &&& final(self).base().spec_block_set(
                        &old(self).base(),
                        coords,
                        block.spec_id(),
                        block_up,
                    )
                },
                None => old(self).base().spec_block_id_at(coords) == block.spec_id()
                    && *final(self) == *old(self),
            },
    {
        let old_block = self.base_structure.block_id_at(coords);
        if old_block == block.id() {
            return None;
        }
        let old_block_rotation = self.base_structure.block_rotation(coords);
        self.base_structure.set_block_id_at(coords, block.id(), block_up);
        Some(
            BlockChangedEvent {
                block: StructureBlock::at(coords),
                old_block,
                new_block: block.id(),
                old_block_rotation,
                new_block_rotation: block_up,
            },
        )
    }

    /// Puts air at `coords`. Where air is there already, nothing changes and nothing is
    /// returned; otherwise the change is returned for whoever has to be told of it.
    pub fn remove_block_at(&mut self, coords: BlockCoordinate) -> (event: Option<BlockChangedEvent>)
        requires
            old(self).wf(),
            coords.spec_within(old(self).base().spec_block_dimensions()),
        ensures
            final(self).wf(),
            final(self).spec_loaded() == old(self).spec_loaded(),
            match event {
                Some(ev) => {
                    &&& ev == (BlockChangedEvent {
                        block: StructureBlock { x: coords.x, y: coords.y, z: coords.z },
                        old_block: old(self).base().spec_block_id_at(coords),
                        new_block: AIR_BLOCK_ID,
                        old_block_rotation: old(self).base().spec_block_rotation(coords),
                        new_block_rotation: BlockFace::Top,
                    })
                    &&& ev.old_block != AIR_BLOCK_ID
                    &&& final(self).base().spec_block_set(
                        &old(self).base(),
                        coords,
                        AIR_BLOCK_ID,
                        BlockFace::Top,
                    )
                },
                None => old(self).base().spec_block_id_at(coords) == AIR_BLOCK_ID && *final(self)
                    == *old(self),
            },
    {
        let old_block = self.base_structure.block_id_at(coords);
        if old_block == AIR_BLOCK_ID {
            return None;
        }
        let old_block_rotation = self.base_structure.block_rotation(coords);
        self.base_structure.set_block_id_at(coords, AIR_BLOCK_ID, BlockFace::Top);
        Some(
            BlockChangedEvent {
                block: StructureBlock::at(coords),
                old_block,
                new_block: AIR_BLOCK_ID,
                old_block_rotation,
                new_block_rotation: BlockFace::Top,
            },
        )
    }
}

} // verus!
