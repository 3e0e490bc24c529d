//! Structures that load and unload their chunks while they exist, such as planets.

use vstd::prelude::*;

use crate::block::block_face::BlockFace;
use crate::block::{Block, AIR_BLOCK_ID};
use crate::registry::{Identifiable, Registry};
use crate::structure::base_structure::{BaseStructure, BlockChangedEvent, spec_volume};
use crate::structure::chunk::Chunk;
use crate::structure::coordinates::{
    BlockCoordinate, ChunkCoordinate, CoordinateType, UnboundChunkCoordinate, CHUNK_DIMENSIONS,
};
use crate::structure::structure_block::StructureBlock;
use crate::structure::ChunkState;

verus! {

/// A cube-shaped structure that has only some of its chunks loaded at a time.
#[derive(Debug)]
pub struct DynamicStructure {
    base_structure: BaseStructure,
    dimensions: CoordinateType,
}

impl DynamicStructure {
    /// The chunk table and blocks of the structure.
    pub closed spec fn base(&self) -> BaseStructure {
        self.base_structure
    }

    /// The number of chunks along each edge.
    pub closed spec fn spec_dimensions(&self) -> CoordinateType {
        self.dimensions
    }

    /// The structure's invariant.
    pub open spec fn wf(&self) -> bool {
        &&& self.base().wf()
        &&& self.base().spec_chunk_dimensions() == (ChunkCoordinate {
            x: self.spec_dimensions(),
            y: self.spec_dimensions(),
            z: self.spec_dimensions(),
        })
    }

    /// The state of the chunk at `coords`.
    pub open spec fn spec_chunk_state(&self, coords: ChunkCoordinate) -> ChunkState {
        if !coords.spec_within(self.base().spec_chunk_dimensions()) {
            ChunkState::Invalid
        } else if self.base().spec_chunk(coords).is_some() || self.base().spec_marked_empty(
            coords,
        ) {
            ChunkState::Loaded
        } else {
            ChunkState::Unloaded
        }
    }

    /// A cube of `dimensions` chunks along each edge, with no chunk loaded.
    pub fn new(dimensions: CoordinateType) -> (structure: DynamicStructure)
        requires
            dimensions * dimensions * dimensions <= usize::MAX,
            dimensions * CHUNK_DIMENSIONS <= u64::MAX,
        ensures
            structure.wf(),
            structure.spec_dimensions() == dimensions,
            forall|coords: ChunkCoordinate| #[trigger]
                structure.base().spec_chunk(coords).is_none(),
            forall|coords: ChunkCoordinate| !#[trigger] structure.base().spec_marked_empty(coords),
    {
        DynamicStructure {
            base_structure: BaseStructure::new(
                ChunkCoordinate { x: dimensions, y: dimensions, z: dimensions },
            ),
            dimensions,
        }
    }

    /// The number of chunks along each edge.
    pub fn chunk_dimensions(&self) -> (dimensions: CoordinateType)
        ensures
            dimensions == self.spec_dimensions(),
    {
        self.dimensions
    }

    /// The state of the chunk at `coords`: `Invalid` outside the structure, `Loaded` where a
    /// chunk is stored or known to be air, else `Unloaded`.
    pub fn get_chunk_state(&self, coords: ChunkCoordinate) -> (state: ChunkState)
        requires
            self.wf(),
        ensures
            state == self.spec_chunk_state(coords),
    {
        if !self.base_structure.chunk_coords_within(coords) {
            ChunkState::Invalid
        } else if self.base_structure.chunk_from_chunk_coordinates(coords).is_some()
            || self.base_structure.is_marked_empty(coords) {
            ChunkState::Loaded
        } else {
            ChunkState::Unloaded
        }
    }

    /// Whether the chunk at `coords` is loaded and holds nothing but air.
    pub fn has_empty_chunk_at(&self, coords: ChunkCoordinate) -> (empty: bool)
        requires
            self.wf(),
        ensures
            empty == self.base().spec_marked_empty(coords),
    {
        self.base_structure.is_marked_empty(coords)
    }

    /// The size of the structure in blocks.
    pub fn block_dimensions(&self) -> (dimensions: BlockCoordinate)
        requires
            self.wf(),
        ensures
            dimensions == self.base().spec_block_dimensions(),
    {
        self.base_structure.block_dimensions()
    }

    /// The chunk at `coords`, where one is stored: a chunk that is loaded and not only air.
    pub fn chunk_from_chunk_coordinates(&self, coords: ChunkCoordinate) -> (chunk: Option<&Chunk>)
        requires
            self.wf(),
        ensures
            match chunk {
                Some(c) => self.base().spec_chunk(coords) == Some(*c) && c.wf()
                    && c.spec_chunk_coordinates() == coords,
                None => self.base().spec_chunk(coords).is_none(),
            },
    {
        self.base_structure.chunk_from_chunk_coordinates(coords)
    }

    /// The chunk at `unbound_coords`, where one is stored; coordinates outside the structure,
    /// below zero included, have none.
    pub fn chunk_from_chunk_coordinates_unbound(&self, unbound_coords: UnboundChunkCoordinate) -> (chunk:
        Option<&Chunk>)
        requires
            self.wf(),
        ensures
            match chunk {
                Some(c) => unbound_coords.x >= 0 && unbound_coords.y >= 0 && unbound_coords.z >= 0
                    && self.base().spec_chunk(
                    ChunkCoordinate {
                        x: unbound_coords.x as u64,
                        y: unbound_coords.y as u64,
                        z: unbound_coords.z as u64,
                    },
                ) == Some(*c),
                None => unbound_coords.x < 0 || unbound_coords.y < 0 || unbound_coords.z < 0
                    || self.base().spec_chunk(
                    ChunkCoordinate {
                        x: unbound_coords.x as u64,
                        y: unbound_coords.y as u64,
                        z: unbound_coords.z as u64,
                    },
                ).is_none(),
            },
    {
        self.base_structure.chunk_from_chunk_coordinates_unbound(unbound_coords)
    }

    /// The chunk that holds the block at `coords`, where one is stored.
    pub fn chunk_at_block_coordinates(&self, coords: BlockCoordinate) -> (chunk: Option<&Chunk>)
        requires
            self.wf(),
        ensures
            match chunk {
                Some(c) => self.base().spec_chunk(ChunkCoordinate::spec_for_block_coordinate(coords))
                    == Some(*c) && c.wf(),
                None => self.base().spec_chunk(
                    ChunkCoordinate::spec_for_block_coordinate(coords),
                ).is_none(),
            },
    {
        self.base_structure.chunk_at_block_coordinates(coords)
    }

    /// Whether `coords` names a block of the structure. The block need not be loaded.
    pub fn is_within_blocks(&self, coords: BlockCoordinate) -> (inside: bool)
        requires
            self.wf(),
        ensures
            inside == coords.spec_within(self.base().spec_block_dimensions()),
    {
        self.base_structure.is_within_blocks(coords)
    }

    /// Whether the structure has a loaded block at `coords` that is not air.
    pub fn has_block_at(&self, coords: BlockCoordinate) -> (has: bool)
        requires
            self.wf(),
        ensures
            has == (self.base().spec_block_id_at(coords) != AIR_BLOCK_ID),
    {
        self.base_structure.has_block_at(coords)
    }

    /// The face that the top of the block at `coords` points along: `Top` where no block is
    /// loaded.
    pub fn block_rotation(&self, coords: BlockCoordinate) -> (up: BlockFace)
        requires
            self.wf(),
        ensures
            up == self.base().spec_block_rotation(coords),
            self.base().spec_block_id_at(coords) == AIR_BLOCK_ID ==> up == BlockFace::Top,
    {
        self.base_structure.block_rotation(coords)
    }

    /// The numeric id of the block at `coords`: air where the chunk is not loaded, holds only
    /// air or lies outside the structure.
    pub fn block_id_at(&self, coords: BlockCoordinate) -> (id: u16)
        requires
            self.wf(),
        ensures
            id == self.base().spec_block_id_at(coords),
    {
        self.base_structure.block_id_at(coords)
    }

    /// The kind of block at `coords`.
    pub fn block_at<'a>(&self, coords: BlockCoordinate, blocks: &'a Registry<Block>) -> (block:
        &'a Block)
        requires
            self.wf(),
            self.base().spec_block_id_at(coords) < blocks.items().len(),
        ensures
            blocks.spec_get(self.base().spec_block_id_at(coords)) == Some(*block),
    {
        self.base_structure.block_at(coords, blocks)
    }

    /// Stores `chunk` at its own coordinates in place of what was there. A chunk of air is
    /// not stored: its place is marked as empty. Nobody is told of the change.
    pub fn set_chunk(&mut self, chunk: Chunk)
        requires
            old(self).wf(),
            chunk.wf(),
            chunk.spec_chunk_coordinates().spec_within(old(self).base().spec_chunk_dimensions()),
        ensures
            final(self).wf(),
            final(self).spec_dimensions() == old(self).spec_dimensions(),
            final(self).base().spec_differs_at(
                &old(self).base(),
                chunk.spec_chunk_coordinates(),
                if chunk.spec_is_empty() {
                    None
                } else {
                    Some(chunk)
                },
                chunk.spec_is_empty(),
            ),
    {
        self.base_structure.set_chunk(chunk)
    }

    /// Makes the chunk at `coords` a chunk of air. Nobody is told of the change.
    pub fn set_to_empty_chunk(&mut self, coords: ChunkCoordinate)
        requires
            old(self).wf(),
            coords.spec_within(old(self).base().spec_chunk_dimensions()),
        ensures
            final(self).wf(),
            final(self).spec_dimensions() == old(self).spec_dimensions(),
            final(self).base().spec_differs_at(&old(self).base(), coords, None, true),
    {
        self.base_structure.set_to_empty_chunk(coords)
    }

    /// Takes the chunk at `coords` out of the structure and hands it to the caller, who is to
    /// put it back with `set_chunk`.
    pub fn take_chunk(&mut self, coords: ChunkCoordinate) -> (chunk: Option<Chunk>)
        requires
            old(self).wf(),
        ensures
            final(self).wf(),
            final(self).spec_dimensions() == old(self).spec_dimensions(),
            chunk == old(self).base().spec_chunk(coords),
            final(self).base().spec_differs_at(
                &old(self).base(),
                coords,
                None,
                old(self).base().spec_marked_empty(coords),
            ),
    {
        self.base_structure.take_chunk(coords)
    }

    /// Whether `coords` names a chunk of the structure.
    #[inline]
    pub fn chunk_coords_within(&self, coords: ChunkCoordinate) -> (inside: bool)
        ensures
            inside == coords.spec_within(self.base().spec_chunk_dimensions()),
    {
        self.base_structure.chunk_coords_within(coords)
    }

    /// Puts a block of the kind `block`, its top pointing along `block_up`, at `coords`.
    /// Where a block of that kind is there already, nothing changes and nothing is returned;
    /// otherwise the change is returned for whoever has to be told of it.
    pub fn set_block_at(&mut self, coords: BlockCoordinate, block: &Block, block_up: BlockFace) -> (event:
        Option<BlockChangedEvent>)
        requires
            old(self).wf(),
            coords.spec_within(old(self).base().spec_block_dimensions()),
        ensures
            final(self).wf(),
            final(self).spec_dimensions() == old(self).spec_dimensions(),
            match event {
                Some(ev) => {
                    &&& ev == (BlockChangedEvent {
                        block: StructureBlock { x: coords.x, y: coords.y, z: coords.z },
                        old_block: old(self).base().spec_block_id_at(coords),
                        new_block: block.spec_id(),
                        old_block_rotation: old(self).base().spec_block_rotation(coords),
                        new_block_rotation: block_up,
                    })
                    &&& ev.old_block != ev.new_block
                    &&& final(self).base().spec_block_set(
                        &old(self).base(),
                        coords,
                        block.spec_id(),
                        block_up,
                    )
                },
                None => old(self).base().spec_block_id_at(coords) == block.spec_id()
                    && *final(self) == *old(self),
            },
    {
        let old_block = self.base_structure.block_id_at(coords);
        if old_block == block.id() {
            return None;
        }
        let old_block_rotation = self.base_structure.block_rotation(coords);
        self.base_structure.set_block_id_at(coords, block.id(), block_up);
        Some(
            BlockChangedEvent {
                block: StructureBlock::at(coords),
                old_block,
                new_block: block.id(),
                old_block_rotation,
                new_block_rotation: block_up,
            },
        )
    }

    /// Puts air at `coords`. Where air is there already, nothing changes and nothing is
    /// returned; otherwise the change is returned for whoever has to be told of it.
    pub fn remove_block_at(&mut self, coords: BlockCoordinate) -> (event: Option<BlockChangedEvent>)
        requires
            old(self).wf(),
            coords.spec_within(old(self).base().spec_block_dimensions()),
        ensures
            final(self).wf(),
            final(self).spec_dimensions() == old(self).spec_dimensions(),
            match event {
                Some(ev) => {
                    &&& ev == (BlockChangedEvent {
                        block: StructureBlock { x: coords.x, y: coords.y, z: coords.z },
                        old_block: old(self).base().spec_block_id_at(coords),
                        new_block: AIR_BLOCK_ID,
                        old_block_rotation: old(self).base().spec_block_rotation(coords),
                        new_block_rotation: BlockFace::Top,
                    })
                    &&& ev.old_block != AIR_BLOCK_ID
                    &&& final(self).base().spec_block_set(
                        &old(self).base(),
                        coords,
                        AIR_BLOCK_ID,
                        BlockFace::Top,
                    )
                },
                None => old(self).base().spec_block_id_at(coords) == AIR_BLOCK_ID && *final(self)
                    == *old(self),
            },
    {
        let old_block = self.base_structure.block_id_at(coords);
        if old_block == AIR_BLOCK_ID {
            return None;
        }
        let old_block_rotation = self.base_structure.block_rotation(coords);
        self.base_structure.set_block_id_at(coords, AIR_BLOCK_ID, BlockFace::Top);
        Some(
            BlockChangedEvent {
                block: StructureBlock::at(coords),
                old_block,
                new_block: AIR_BLOCK_ID,
                old_block_rotation,
                new_block_rotation: BlockFace::Top,
            },
        )
    }
}

} // verus!
