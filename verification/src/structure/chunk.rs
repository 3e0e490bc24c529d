//! A cube of blocks: the unit in which a structure stores, loads and unloads its blocks.

use vstd::prelude::*;

use crate::block::block_face::BlockFace;
use crate::block::AIR_BLOCK_ID;
use crate::structure::coordinates::{ChunkBlockCoordinate, ChunkCoordinate, CHUNK_DIMENSIONS};

verus! {

/// The number of blocks in a chunk.
pub const CHUNK_VOLUME: usize = 32768;

/// How many of the block ids in `ids` are not air.
pub open spec fn count_non_air(ids: Seq<u16>) -> nat
    decreases ids.len(),
{
    if ids.len() == 0 {
        0
    } else {
        count_non_air(ids.drop_last()) + if ids.last() != AIR_BLOCK_ID {
            1nat
        } else {
            0nat
        }
    }
}

/// Writing one block id changes the count of blocks that are not air by that block alone.
pub proof fn lemma_count_non_air_update(ids: Seq<u16>, index: int, id: u16)
    requires
        0 <= index < ids.len(),
    ensures
        count_non_air(ids.update(index, id)) + (if ids[index] != AIR_BLOCK_ID {
            1nat
        } else {
            0nat
        }) == count_non_air(ids) + (if id != AIR_BLOCK_ID {
            1nat
        } else {
            0nat
        }),
    decreases ids.len(),
{
    let updated = ids.update(index, id);
    if index == ids.len() - 1 {
        assert(updated.drop_last() =~= ids.drop_last());
    } else {
        assert(updated.drop_last() =~= ids.drop_last().update(index, id));
        lemma_count_non_air_update(ids.drop_last(), index, id);
    }
}

/// The count of blocks that are not air is at most the number of blocks, and it is zero
/// exactly when every block is air.
pub proof fn lemma_count_non_air_bounds(ids: Seq<u16>)
    ensures
        count_non_air(ids) <= ids.len(),
        count_non_air(ids) == 0 <==> (forall|i: int| 0 <= i < ids.len() ==> ids[i] == AIR_BLOCK_ID),
    decreases ids.len(),
{
    if ids.len() > 0 {
        lemma_count_non_air_bounds(ids.drop_last());
        if count_non_air(ids) == 0 {
            assert forall|i: int| 0 <= i < ids.len() implies ids[i] == AIR_BLOCK_ID by {
                if i < ids.len() - 1 {
                    assert(ids.drop_last()[i] == ids[i]);
                }
            }
        } else if forall|i: int| 0 <= i < ids.len() ==> ids[i] == AIR_BLOCK_ID {
            assert forall|i: int| 0 <= i < ids.drop_last().len() implies ids.drop_last()[i]
                == AIR_BLOCK_ID by {
                assert(ids.drop_last()[i] == ids[i]);
            }
        }
    }
}

/// One chunk of a structure: for each of its blocks the block's id and the way it is turned.
#[derive(Debug)]
pub struct Chunk {
    structure_position: ChunkCoordinate,
    blocks: Vec<u16>,
    rotations: Vec<BlockFace>,
    non_air_blocks: u32,
}

impl Chunk {
    /// The chunk's invariant: it stores every block of the cube and knows how many are not air.
    pub closed spec fn wf(&self) -> bool {
        &&& self.blocks@.len() == CHUNK_VOLUME
        &&& self.rotations@.len() == CHUNK_VOLUME
        &&& self.non_air_blocks == count_non_air(self.blocks@)
        &&& forall|i: int|
            0 <= i < CHUNK_VOLUME && self.blocks@[i] == AIR_BLOCK_ID ==> #[trigger] self.rotations@[i]
                == BlockFace::Top
    }

    /// Where a chunk has air, it reads as turned to `Top`.
    pub proof fn lemma_air_reads_top(&self, coords: ChunkBlockCoordinate)
        requires
            self.wf(),
            coords.spec_valid(),
        ensures
            self.spec_block_at(coords) == AIR_BLOCK_ID ==> self.spec_block_rotation(coords)
                == BlockFace::Top,
    {
    }

    /// Where this chunk lies in its structure.
    pub closed spec fn spec_chunk_coordinates(&self) -> ChunkCoordinate {
        self.structure_position
    }

    /// The id of the block at `coords`.
    pub closed spec fn spec_block_at(&self, coords: ChunkBlockCoordinate) -> u16 {
        self.blocks@[coords.spec_flatten()]
    }

    /// The face that the top of the block at `coords` points along.
    pub closed spec fn spec_block_rotation(&self, coords: ChunkBlockCoordinate) -> BlockFace {
        self.rotations@[coords.spec_flatten()]
    }

    /// Whether every block of the chunk is air.
    pub open spec fn spec_is_empty(&self) -> bool {
        forall|coords: ChunkBlockCoordinate|
            coords.spec_valid() ==> #[trigger] self.spec_block_at(coords) == AIR_BLOCK_ID
    }

    /// A chunk of air at the given position of its structure.
    pub fn new(structure_position: ChunkCoordinate) -> (chunk: Chunk)
        ensures
            chunk.wf(),
            chunk.spec_chunk_coordinates() == structure_position,
            chunk.spec_is_empty(),
            forall|coords: ChunkBlockCoordinate|
                coords.spec_valid() ==> #[trigger] chunk.spec_block_rotation(coords)
                    == BlockFace::Top,
    {
        let mut blocks: Vec<u16> = Vec::new();
        let mut rotations: Vec<BlockFace> = Vec::new();
        let mut i: usize = 0;
        while i < CHUNK_VOLUME
            invariant
                i <= CHUNK_VOLUME,
                blocks@.len() == i,
                rotations@.len() == i,
                forall|j: int| 0 <= j < i ==> blocks@[j] == AIR_BLOCK_ID,
                forall|j: int| 0 <= j < i ==> rotations@[j] == BlockFace::Top,
            decreases CHUNK_VOLUME - i,
        {
            blocks.push(AIR_BLOCK_ID);
            rotations.push(BlockFace::Top);
            i += 1;
        }
        proof {
            lemma_count_non_air_bounds(blocks@);
        }
        Chunk { structure_position, blocks, rotations, non_air_blocks: 0 }
    }

    /// Where this chunk lies in its structure.
    pub fn chunk_coordinates(&self) -> (coords: ChunkCoordinate)
        ensures
            coords == self.spec_chunk_coordinates(),
    {
        self.structure_position
    }

    /// The id of the block at `coords`.
    pub fn block_at(&self, coords: ChunkBlockCoordinate) -> (id: u16)
        requires
            self.wf(),
            coords.spec_valid(),
        ensures
            id == self.spec_block_at(coords),
    {
        self.blocks[coords.flatten()]
    }

    /// The face that the top of the block at `coords` points along.
    pub fn block_rotation(&self, coords: ChunkBlockCoordinate) -> (up: BlockFace)
        requires
            self.wf(),
            coords.spec_valid(),
        ensures
            up == self.spec_block_rotation(coords),
    {
        self.rotations[coords.flatten()]
    }

    /// Whether every block of the chunk is air.
    pub fn is_empty(&self) -> (empty: bool)
        requires
            self.wf(),
        ensures
            empty == self.spec_is_empty(),
    {
        proof {
            lemma_count_non_air_bounds(self.blocks@);
            if self.non_air_blocks == 0 {
                assert(self.spec_is_empty());
            } else {
                let i = choose|i: int| 0 <= i < self.blocks@.len() && self.blocks@[i] != AIR_BLOCK_ID;
                let coords = ChunkBlockCoordinate {
                    x: (i % 32) as u64,
                    y: ((i / 32) % 32) as u64,
                    z: (i / 1024) as u64,
                };
                assert(coords.spec_valid());
                assert(coords.spec_flatten() == i);
                assert(self.spec_block_at(coords) != AIR_BLOCK_ID);
            }
        }
        self.non_air_blocks == 0
    }

    /// Puts the block with id `id`, its top pointing along `block_up`, at `coords`. Air has
    /// no way of being turned: where air is put, the place reads as turned to `Top`. Every
    /// other block stays as it is.
    pub fn set_block_at(&mut self, coords: ChunkBlockCoordinate, id: u16, block_up: BlockFace)
        requires
            old(self).wf(),
            coords.spec_valid(),
        ensures
            final(self).wf(),
            final(self).spec_chunk_coordinates() == old(self).spec_chunk_coordinates(),
            final(self).spec_block_at(coords) == id,
            final(self).spec_block_rotation(coords) == if id == AIR_BLOCK_ID {
                BlockFace::Top
            } else {
                block_up
            },
            forall|other: ChunkBlockCoordinate|
                other.spec_valid() && other != coords ==> #[trigger] final(self).spec_block_at(other)
                    == old(self).spec_block_at(other),
            forall|other: ChunkBlockCoordinate|
                other.spec_valid() && other != coords ==> #[trigger] final(self).spec_block_rotation(
                    other,
                ) == old(self).spec_block_rotation(other),
    {
        let index = coords.flatten();
        let previous = self.blocks[index];
        proof {
            lemma_count_non_air_update(self.blocks@, index as int, id);
            lemma_count_non_air_bounds(self.blocks@);
            lemma_count_non_air_bounds(self.blocks@.update(index as int, id));
        }
        if previous != AIR_BLOCK_ID && id == AIR_BLOCK_ID {
            self.non_air_blocks = self.non_air_blocks - 1;
        } else if previous == AIR_BLOCK_ID && id != AIR_BLOCK_ID {
            self.non_air_blocks = self.non_air_blocks + 1;
        }
        self.blocks.set(index, id);
        self.rotations.set(index, if id == AIR_BLOCK_ID {
            BlockFace::Top
        } else {
            block_up
        });
        proof {
            assert forall|other: ChunkBlockCoordinate|
                other.spec_valid() && other != coords implies other.spec_flatten()
                != coords.spec_flatten() by {
                if other.spec_flatten() == coords.spec_flatten() {
                    crate::structure::coordinates::lemma_chunk_flatten_injective(other, coords);
                }
            }
        }
    }
}

} // verus!
