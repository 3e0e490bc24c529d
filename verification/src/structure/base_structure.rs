//! What every structure has, however it loads its chunks: the table of chunks and the
//! queries on blocks.

use vstd::prelude::*;

use crate::block::block_face::BlockFace;
use crate::block::{Block, AIR_BLOCK_ID};
use crate::registry::{Identifiable, Registry};
use crate::structure::chunk::Chunk;
use crate::structure::chunk_table::{chunk_map_entries, ChunkMap};
use crate::structure::coordinates::{
    BlockCoordinate, ChunkBlockCoordinate, ChunkCoordinate, UnboundChunkCoordinate,
    CHUNK_DIMENSIONS,
};
use crate::structure::structure_block::StructureBlock;

verus! {

/// Tells that one block of a structure was replaced by another.
#[derive(Debug, Clone, Copy, PartialEq, Eq, Structural)]
pub struct BlockChangedEvent {
    /// Where the block is.
    pub block: StructureBlock,
    /// The numeric id of the block that was there.
    pub old_block: u16,
    /// The numeric id of the block that is there now.
    pub new_block: u16,
    /// The way the old block was turned.
    pub old_block_rotation: BlockFace,
    /// The way the new block is turned.
    pub new_block_rotation: BlockFace,
}

/// The number of chunks in a structure of the given size.
pub open spec fn spec_volume(dimensions: ChunkCoordinate) -> int {
    dimensions.x * dimensions.y * dimensions.z
}

/// The place of the chunk at `coords` in the chunk table of a structure of the given size.
pub open spec fn spec_flatten(dimensions: ChunkCoordinate, coords: ChunkCoordinate) -> int {
    (coords.z * dimensions.y + coords.y) * dimensions.x + coords.x
}

/// The chunk whose place in the chunk table is `index`.
pub open spec fn spec_unflatten(dimensions: ChunkCoordinate, index: int) -> ChunkCoordinate {
    ChunkCoordinate {
        x: (index % (dimensions.x as int)) as u64,
        y: ((index / (dimensions.x as int)) % (dimensions.y as int)) as u64,
        z: ((index / (dimensions.x as int)) / (dimensions.y as int)) as u64,
    }
}

/// A chunk inside the structure has a place inside the chunk table, and the place determines
/// the chunk.
pub proof fn lemma_flatten(dimensions: ChunkCoordinate, coords: ChunkCoordinate)
    requires
        coords.spec_within(dimensions),
    ensures
        0 <= coords.z * dimensions.y + coords.y < dimensions.y * dimensions.z,
        dimensions.y * dimensions.z <= spec_volume(dimensions),
        0 <= spec_flatten(dimensions, coords) < spec_volume(dimensions),
        spec_unflatten(dimensions, spec_flatten(dimensions, coords)) == coords,
{
    let (w, h, l) = (dimensions.x as int, dimensions.y as int, dimensions.z as int);
    let (x, y, z) = (coords.x as int, coords.y as int, coords.z as int);
    let row = z * h + y;
    assert(0 <= row < h * l) by (nonlinear_arith)
        requires
            0 <= y < h,
            0 <= z < l,
            row == z * h + y,
    ;
    assert(0 <= row * w + x < w * h * l && h * l <= w * h * l) by (nonlinear_arith)
        requires
            0 <= x < w,
            0 <= row < h * l,
    ;
    vstd::arithmetic::div_mod::lemma_fundamental_div_mod_converse(row * w + x, w, row, x);
    vstd::arithmetic::div_mod::lemma_fundamental_div_mod_converse(row, h, z, y);
}

/// The chunk table and block queries shared by every kind of structure.
#[derive(Debug)]
pub struct BaseStructure {
    chunks: ChunkMap,
    empty_chunks: Vec<usize>,
    dimensions: ChunkCoordinate,
}

/// A sequence with one more item holds what it held, and that item.
proof fn lemma_push_contains<T>(s: Seq<T>, pushed: T, other: T)
    ensures
        s.push(pushed).contains(other) <==> s.contains(other) || other == pushed,
{
    let longer = s.push(pushed);
    if longer.contains(other) {
        let k = choose|k: int| 0 <= k < longer.len() && longer[k] == other;
        if k < s.len() {
            assert(s[k] == other);
        }
    }
    if s.contains(other) {
        let k = choose|k: int| 0 <= k < s.len() && s[k] == other;
        assert(longer[k] == other);
    }
    if other == pushed {
        assert(longer[s.len() as int] == other);
    }
}

/// Whether `list` holds `place`.
fn list_contains(list: &Vec<usize>, place: usize) -> (found: bool)
    ensures
        found == list@.contains(place),
{
    let mut i: usize = 0;
    while i < list.len()
        invariant
            i <= list.len(),
            forall|k: int| 0 <= k < i ==> list@[k] != place,
        decreases list.len() - i,
    {
        if list[i] == place {
            return true;
        }
        i += 1;
    }
    false
}

/// Takes `place` out of `list`, wherever it stands in it.
fn list_remove(list: &mut Vec<usize>, place: usize)
    ensures
        forall|other: usize|
            final(list)@.contains(other) <==> old(list)@.contains(other) && other != place,
{
    let mut kept: Vec<usize> = Vec::new();
    let mut i: usize = 0;
    while i < list.len()
        invariant
            i <= list.len(),
            *list == *old(list),
            forall|other: usize|
                kept@.contains(other) <==> list@.take(i as int).contains(other) && other != place,
        decreases list.len() - i,
    {
        let ghost kept_before = kept@;
        let current = list[i];
        if current != place {
            kept.push(current);
        }
        proof {
            let shorter = list@.take(i as int);
            let longer = list@.take(i + 1);
            assert(longer == shorter.push(current));
            assert forall|other: usize|
                kept@.contains(other) <==> longer.contains(other) && other != place by {
                lemma_push_contains(shorter, current, other);
                if current != place {
                    lemma_push_contains(kept_before, current, other);
                }
            }
        }
        i += 1;
    }
    proof {
        assert(list@.take(list@.len() as int) == list@);
    }
    *list = kept;
}

impl BaseStructure {
    /// The structure's invariant: every chunk in the chunk table lies at its own place, the
    /// places fit their number type, and so do block coordinates.
    pub closed spec fn wf(&self) -> bool {
        &&& spec_volume(self.dimensions) <= usize::MAX
        &&& self.dimensions.x * CHUNK_DIMENSIONS <= u64::MAX
        &&& self.dimensions.y * CHUNK_DIMENSIONS <= u64::MAX
        &&& self.dimensions.z * CHUNK_DIMENSIONS <= u64::MAX
        &&& forall|i: usize| #[trigger]
            chunk_map_entries(self.chunks).contains_key(i) ==> {
                let chunk = chunk_map_entries(self.chunks)[i];
                chunk.wf() && chunk.spec_chunk_coordinates().spec_within(self.dimensions)
                    && spec_flatten(self.dimensions, chunk.spec_chunk_coordinates()) == i
            }
    }

    /// The size of the structure in chunks.
    pub closed spec fn spec_chunk_dimensions(&self) -> ChunkCoordinate {
        self.dimensions
    }

    /// The chunk at `coords`, where one is stored: a chunk that is loaded and not only air.
    pub closed spec fn spec_chunk(&self, coords: ChunkCoordinate) -> Option<Chunk> {
        if coords.spec_within(self.dimensions) && chunk_map_entries(self.chunks).contains_key(
            spec_flatten(self.dimensions, coords) as usize,
        ) {
            Some(chunk_map_entries(self.chunks)[spec_flatten(self.dimensions, coords) as usize])
        } else {
            None
        }
    }

    /// Whether the chunk at `coords` is known to hold nothing but air.
    pub closed spec fn spec_marked_empty(&self, coords: ChunkCoordinate) -> bool {
        coords.spec_within(self.dimensions) && self.empty_chunks@.contains(
            spec_flatten(self.dimensions, coords) as usize,
        )
    }

    /// The size of the structure in blocks.
    pub open spec fn spec_block_dimensions(&self) -> BlockCoordinate {
        BlockCoordinate {
            x: (self.spec_chunk_dimensions().x * CHUNK_DIMENSIONS) as u64,
            y: (self.spec_chunk_dimensions().y * CHUNK_DIMENSIONS) as u64,
            z: (self.spec_chunk_dimensions().z * CHUNK_DIMENSIONS) as u64,
        }
    }

    /// The id of the block at `coords`: air where no chunk is stored.
    pub open spec fn spec_block_id_at(&self, coords: BlockCoordinate) -> u16 {
        match self.spec_chunk(ChunkCoordinate::spec_for_block_coordinate(coords)) {
            Some(chunk) => chunk.spec_block_at(
                ChunkBlockCoordinate::spec_for_block_coordinate(coords),
            ),
            None => AIR_BLOCK_ID,
        }
    }

    /// The face that the top of the block at `coords` points along: `Top` where no chunk is
    /// stored.
    pub open spec fn spec_block_rotation(&self, coords: BlockCoordinate) -> BlockFace {
        match self.spec_chunk(ChunkCoordinate::spec_for_block_coordinate(coords)) {
            Some(chunk) => chunk.spec_block_rotation(
                ChunkBlockCoordinate::spec_for_block_coordinate(coords),
            ),
            None => BlockFace::Top,
        }
    }

    /// Whether `self` is `before` with the chunk table changed at `coords` alone, to hold
    /// `chunk` and the mark `marked` there.
    pub open spec fn spec_differs_at(
        &self,
        before: &BaseStructure,
        coords: ChunkCoordinate,
        chunk: Option<Chunk>,
        marked: bool,
    ) -> bool {
        &&& self.spec_chunk_dimensions() == before.spec_chunk_dimensions()
        &&& self.spec_chunk(coords) == chunk
        &&& self.spec_marked_empty(coords) == marked
        &&& forall|other: ChunkCoordinate|
            other != coords ==> #[trigger] self.spec_chunk(other) == before.spec_chunk(other)
        &&& forall|other: ChunkCoordinate|
            other != coords ==> #[trigger] self.spec_marked_empty(other)
                == before.spec_marked_empty(other)
    }

    /// Whether `self` is `before` with the block at `coords` alone replaced by the block with
    /// id `id` turned to `block_up`. Where air is put, the place reads as turned to `Top`, as
    /// every place without a block does.
    pub open spec fn spec_block_set(
        &self,
        before: &BaseStructure,
        coords: BlockCoordinate,
        id: u16,
        block_up: BlockFace,
    ) -> bool {
        &&& self.spec_chunk_dimensions() == before.spec_chunk_dimensions()
        &&& self.spec_block_id_at(coords) == id
        &&& self.spec_block_rotation(coords) == if id == AIR_BLOCK_ID {
            BlockFace::Top
        } else {
            block_up
        }
        &&& forall|other: BlockCoordinate|
            other != coords ==> #[trigger] self.spec_block_id_at(other) == before.spec_block_id_at(
                other,
            )
        &&& forall|other: BlockCoordinate|
            other != coords && before.spec_block_id_at(other) != AIR_BLOCK_ID
                ==> #[trigger] self.spec_block_rotation(other) == before.spec_block_rotation(other)
    }

    /// The size in blocks is the size in chunks times the edge of a chunk: the product fits
    /// the number type of coordinates.
    pub proof fn law_block_dimensions(&self)
        requires
            self.wf(),
        ensures
            self.spec_block_dimensions().x == self.spec_chunk_dimensions().x * CHUNK_DIMENSIONS,
            self.spec_block_dimensions().y == self.spec_chunk_dimensions().y * CHUNK_DIMENSIONS,
            self.spec_block_dimensions().z == self.spec_chunk_dimensions().z * CHUNK_DIMENSIONS,
    {
    }

    /// A place without a block reads as turned to `Top`.
    pub proof fn lemma_air_reads_top(&self, coords: BlockCoordinate)
        requires
            self.wf(),
        ensures
            self.spec_block_id_at(coords) == AIR_BLOCK_ID ==> self.spec_block_rotation(coords)
                == BlockFace::Top,
    {
        let place = ChunkCoordinate::spec_for_block_coordinate(coords);
        let inner = ChunkBlockCoordinate::spec_for_block_coordinate(coords);
        match self.spec_chunk(place) {
            Some(chunk) => {
                assert(inner.spec_valid());
                chunk.lemma_air_reads_top(inner);
            },
            None => {},
        }
    }

    /// A structure of the given size in chunks, without any chunk.
    pub fn new(dimensions: ChunkCoordinate) -> (structure: BaseStructure)
        requires
            spec_volume(dimensions) <= usize::MAX,
            dimensions.x * CHUNK_DIMENSIONS <= u64::MAX,
            dimensions.y * CHUNK_DIMENSIONS <= u64::MAX,
            dimensions.z * CHUNK_DIMENSIONS <= u64::MAX,
        ensures
            structure.wf(),
            structure.spec_chunk_dimensions() == dimensions,
            forall|coords: ChunkCoordinate| #[trigger] structure.spec_chunk(coords).is_none(),
            forall|coords: ChunkCoordinate| !#[trigger] structure.spec_marked_empty(coords),
    {
        let chunks = ChunkMap::new();
        let empty_chunks: Vec<usize> = Vec::new();
        let structure = BaseStructure { chunks, empty_chunks, dimensions };
        proof {
            assert forall|i: usize| !chunk_map_entries(structure.chunks).contains_key(i) by {
                assert(!chunk_map_entries(structure.chunks).dom().contains(i));
            }
            assert forall|coords: ChunkCoordinate| #[trigger]
                structure.spec_chunk(coords).is_none() by {
                if coords.spec_within(dimensions) {
                    lemma_flatten(dimensions, coords);
                }
            }
            assert forall|coords: ChunkCoordinate| !#[trigger] structure.spec_marked_empty(
                coords,
            ) by {
                if coords.spec_within(dimensions) {
                    lemma_flatten(dimensions, coords);
                }
            }
        }
        structure
    }

    /// The place of the chunk at `coords` in the chunk table.
    fn flatten(&self, coords: ChunkCoordinate) -> (index: usize)
        requires
            self.wf(),
            coords.spec_within(self.dimensions),
        ensures
            index == spec_flatten(self.dimensions, coords),
            index < spec_volume(self.dimensions),
    {
        proof {
            lemma_flatten(self.dimensions, coords);
            assert(0 <= coords.z * self.dimensions.y <= coords.z * self.dimensions.y + coords.y);
            assert((coords.z * self.dimensions.y + coords.y) * self.dimensions.x <= spec_flatten(
                self.dimensions,
                coords,
            ));
        }
        let row = coords.z * self.dimensions.y + coords.y;
        (row * self.dimensions.x + coords.x) as usize
    }

    /// The size of the structure in chunks.
    pub fn chunk_dimensions(&self) -> (dimensions: ChunkCoordinate)
        ensures
            dimensions == self.spec_chunk_dimensions(),
    {
        self.dimensions
    }

    /// The size of the structure in blocks.
    pub fn block_dimensions(&self) -> (dimensions: BlockCoordinate)
        requires
            self.wf(),
        ensures
            dimensions == self.spec_block_dimensions(),
    {
        BlockCoordinate {
            x: self.dimensions.x * CHUNK_DIMENSIONS,
            y: self.dimensions.y * CHUNK_DIMENSIONS,
            z: self.dimensions.z * CHUNK_DIMENSIONS,
        }
    }

    /// Whether `coords` names a chunk of the structure.
    pub fn chunk_coords_within(&self, coords: ChunkCoordinate) -> (inside: bool)
        ensures
            inside == coords.spec_within(self.spec_chunk_dimensions()),
    {
        coords.within(self.dimensions)
    }

    /// Whether `coords` names a block of the structure, loaded or not.
    pub fn is_within_blocks(&self, coords: BlockCoordinate) -> (inside: bool)
        requires
            self.wf(),
        ensures
            inside == coords.spec_within(self.spec_block_dimensions()),
            inside == ChunkCoordinate::spec_for_block_coordinate(coords).spec_within(
                self.spec_chunk_dimensions(),
            ),
    {
        coords.within(self.block_dimensions())
    }

    /// The chunk at `coords`, where one is stored.
    pub fn chunk_from_chunk_coordinates(&self, coords: ChunkCoordinate) -> (chunk: Option<&Chunk>)
        requires
            self.wf(),
        ensures
            match chunk {
                Some(c) => self.spec_chunk(coords) == Some(*c) && c.wf()
                    && c.spec_chunk_coordinates() == coords,
                None => self.spec_chunk(coords).is_none(),
            },
    {
        if !coords.within(self.dimensions) {
            return None;
        }
        let index = self.flatten(coords);
        let found = self.chunks.get(index);
        proof {
            if chunk_map_entries(self.chunks).contains_key(index) {
                let c = chunk_map_entries(self.chunks)[index];
                lemma_flatten(self.dimensions, c.spec_chunk_coordinates());
                lemma_flatten(self.dimensions, coords);
            }
        }
        found
    }

    /// The chunk at `coords`, where one is stored; coordinates outside the structure, below
    /// zero included, have none.
    pub fn chunk_from_chunk_coordinates_unbound(&self, unbound_coords: UnboundChunkCoordinate) -> (chunk:
        Option<&Chunk>)
        requires
            self.wf(),
        ensures
            match chunk {
                Some(c) => unbound_coords.x >= 0 && unbound_coords.y >= 0 && unbound_coords.z >= 0
                    && self.spec_chunk(
                    ChunkCoordinate {
                        x: unbound_coords.x as u64,
                        y: unbound_coords.y as u64,
                        z: unbound_coords.z as u64,
                    },
                ) == Some(*c),
                None => unbound_coords.x < 0 || unbound_coords.y < 0 || unbound_coords.z < 0
                    || self.spec_chunk(
                    ChunkCoordinate {
                        x: unbound_coords.x as u64,
                        y: unbound_coords.y as u64,
                        z: unbound_coords.z as u64,
                    },
                ).is_none(),
            },
    {
        if unbound_coords.x < 0 || unbound_coords.y < 0 || unbound_coords.z < 0 {
            return None;
        }
        self.chunk_from_chunk_coordinates(
            ChunkCoordinate {
                x: unbound_coords.x as u64,
                y: unbound_coords.y as u64,
                z: unbound_coords.z as u64,
            },
        )
    }

    /// The chunk that holds the block at `coords`, where one is stored.
    pub fn chunk_at_block_coordinates(&self, coords: BlockCoordinate) -> (chunk: Option<&Chunk>)
        requires
            self.wf(),
        ensures
            match chunk {
                Some(c) => self.spec_chunk(ChunkCoordinate::spec_for_block_coordinate(coords))
                    == Some(*c) && c.wf(),
                None => self.spec_chunk(
                    ChunkCoordinate::spec_for_block_coordinate(coords),
                ).is_none(),
            },
    {
        self.chunk_from_chunk_coordinates(ChunkCoordinate::for_block_coordinate(coords))
    }

    /// The id of the block at `coords`: air where the block is not loaded or lies outside.
    pub fn block_id_at(&self, coords: BlockCoordinate) -> (id: u16)
        requires
            self.wf(),
        ensures
            id == self.spec_block_id_at(coords),
    {
        match self.chunk_at_block_coordinates(coords) {
            Some(chunk) => chunk.block_at(ChunkBlockCoordinate::for_block_coordinate(coords)),
            None => AIR_BLOCK_ID,
        }
    }

    /// Whether a block other than air is loaded at `coords`.
    pub fn has_block_at(&self, coords: BlockCoordinate) -> (has: bool)
        requires
            self.wf(),
        ensures
            has == (self.spec_block_id_at(coords) != AIR_BLOCK_ID),
    {
        self.block_id_at(coords) != AIR_BLOCK_ID
    }

    /// The face that the top of the block at `coords` points along: `Top` where no block is
    /// loaded.
    pub fn block_rotation(&self, coords: BlockCoordinate) -> (up: BlockFace)
        requires
            self.wf(),
        ensures
            up == self.spec_block_rotation(coords),
            self.spec_block_id_at(coords) == AIR_BLOCK_ID ==> up == BlockFace::Top,
    {
        proof {
            self.lemma_air_reads_top(coords);
        }
        match self.chunk_at_block_coordinates(coords) {
            Some(chunk) => chunk.block_rotation(ChunkBlockCoordinate::for_block_coordinate(coords)),
            None => BlockFace::Top,
        }
    }

    /// The kind of block at `coords`.
    pub fn block_at<'a>(&self, coords: BlockCoordinate, blocks: &'a Registry<Block>) -> (block:
        &'a Block)
        requires
            self.wf(),
            self.spec_block_id_at(coords) < blocks.items().len(),
        ensures
            blocks.spec_get(self.spec_block_id_at(coords)) == Some(*block),
    {
        blocks.from_numeric_id(self.block_id_at(coords))
    }

    /// Whether the chunk at `coords` is known to hold nothing but air.
    pub fn is_marked_empty(&self, coords: ChunkCoordinate) -> (marked: bool)
        requires
            self.wf(),
        ensures
            marked == self.spec_marked_empty(coords),
    {
        if !coords.within(self.dimensions) {
            return false;
        }
        let index = self.flatten(coords);
        list_contains(&self.empty_chunks, index)
    }

    /// Writes one place of the chunk table.
    fn put(&mut self, coords: ChunkCoordinate, chunk: Option<Chunk>, marked: bool) -> (previous:
        Option<Chunk>)
        requires
            old(self).wf(),
            coords.spec_within(old(self).spec_chunk_dimensions()),
            match chunk {
                Some(c) => c.wf() && c.spec_chunk_coordinates() == coords,
                None => true,
            },
        ensures
            final(self).wf(),
            final(self).spec_differs_at(old(self), coords, chunk, marked),
            previous == old(self).spec_chunk(coords),
            match previous {
                Some(c) => c.wf() && c.spec_chunk_coordinates() == coords,
                None => true,
            },
    {
        let index = self.flatten(coords);
        proof {
            lemma_flatten(self.dimensions, coords);
            if chunk_map_entries(self.chunks).contains_key(index) {
                let c = chunk_map_entries(self.chunks)[index];
                lemma_flatten(self.dimensions, c.spec_chunk_coordinates());
            }
        }
        let previous = match chunk {
            Some(stored) => self.chunks.insert(index, stored),
            None => self.chunks.remove(index),
        };
        list_remove(&mut self.empty_chunks, index);
        let ghost unmarked = self.empty_chunks@;
        if marked {
            self.empty_chunks.push(index);
        }
        proof {
            assert forall|other: usize|
                self.empty_chunks@.contains(other) <==> (old(self).empty_chunks@.contains(other)
                    && other != index) || (marked && other == index) by {
                if marked {
                    lemma_push_contains(unmarked, index, other);
                }
            }
        }
        proof {
            assert forall|other: ChunkCoordinate| other != coords implies #[trigger]
                self.spec_chunk(other) == old(self).spec_chunk(other) by {
                if other.spec_within(self.dimensions) {
                    lemma_flatten(self.dimensions, other);
                }
            }
            assert forall|other: ChunkCoordinate| other != coords implies #[trigger]
                self.spec_marked_empty(other) == old(self).spec_marked_empty(other) by {
                if other.spec_within(self.dimensions) {
                    lemma_flatten(self.dimensions, other);
                }
            }
        }
        previous
    }

    /// Stores `chunk` at its own coordinates in place of what was there. A chunk of air is
    /// not stored: its place is marked as empty.
    pub fn set_chunk(&mut self, chunk: Chunk)
        requires
            old(self).wf(),
            chunk.wf(),
            chunk.spec_chunk_coordinates().spec_within(old(self).spec_chunk_dimensions()),
        ensures
            final(self).wf(),
            final(self).spec_differs_at(
                old(self),
                chunk.spec_chunk_coordinates(),
                if chunk.spec_is_empty() {
                    None
                } else {
                    Some(chunk)
                },
                chunk.spec_is_empty(),
            ),
    {
        let coords = chunk.chunk_coordinates();
        if chunk.is_empty() {
            self.put(coords, None, true);
        } else {
            self.put(coords, Some(chunk), false);
        }
    }

    /// Marks the chunk at `coords` as holding nothing but air and drops what was stored there.
    pub fn set_to_empty_chunk(&mut self, coords: ChunkCoordinate)
        requires
            old(self).wf(),
            coords.spec_within(old(self).spec_chunk_dimensions()),
        ensures
            final(self).wf(),
            final(self).spec_differs_at(old(self), coords, None, true),
    {
        self.put(coords, None, true);
    }

    /// Takes the chunk at `coords` out of the structure, leaving its place without a chunk.
    pub fn take_chunk(&mut self, coords: ChunkCoordinate) -> (chunk: Option<Chunk>)
        requires
            old(self).wf(),
        ensures
            final(self).wf(),
            chunk == old(self).spec_chunk(coords),
            final(self).spec_differs_at(old(self), coords, None, old(self).spec_marked_empty(coords)),
    {
        if !coords.within(self.dimensions) {
            return None;
        }
        let marked = self.is_marked_empty(coords);
        self.put(coords, None, marked)
    }

    /// Puts the block with id `id`, turned to `block_up`, at `coords`. A chunk is made for it
    /// where none is stored, and a chunk that holds nothing but air afterwards is dropped.
    pub fn set_block_id_at(&mut self, coords: BlockCoordinate, id: u16, block_up: BlockFace)
        requires
            old(self).wf(),
            coords.spec_within(old(self).spec_block_dimensions()),
        ensures
            final(self).wf(),
            final(self).spec_block_set(old(self), coords, id, block_up),
    {
        let chunk_coords = ChunkCoordinate::for_block_coordinate(coords);
        let inner = ChunkBlockCoordinate::for_block_coordinate(coords);
        let marked = self.is_marked_empty(chunk_coords);
        let stored = self.put(chunk_coords, None, marked);
        let mut chunk = match stored {
            Some(chunk) => chunk,
            None => Chunk::new(chunk_coords),
        };
        let ghost before = chunk;
        chunk.set_block_at(inner, id, block_up);
        if chunk.is_empty() {
            self.put(chunk_coords, None, marked);
        } else {
            self.put(chunk_coords, Some(chunk), false);
        }
        proof {
            assert forall|other: BlockCoordinate| other != coords implies #[trigger]
                self.spec_block_id_at(other) == old(self).spec_block_id_at(other) by {
                let other_chunk = ChunkCoordinate::spec_for_block_coordinate(other);
                let other_inner = ChunkBlockCoordinate::spec_for_block_coordinate(other);
                if other_chunk == chunk_coords {
                    assert(other_inner != inner);
                    assert(other_inner.spec_valid());
                    assert(chunk.spec_block_at(other_inner) == before.spec_block_at(other_inner));
                }
            }
            assert forall|other: BlockCoordinate|
                other != coords && old(self).spec_block_id_at(other)
                    != AIR_BLOCK_ID implies #[trigger] self.spec_block_rotation(other) == old(
                self,
            ).spec_block_rotation(other) by {
                let other_chunk = ChunkCoordinate::spec_for_block_coordinate(other);
                let other_inner = ChunkBlockCoordinate::spec_for_block_coordinate(other);
                if other_chunk == chunk_coords {
                    assert(other_inner != inner);
                    assert(other_inner.spec_valid());
                    assert(chunk.spec_block_at(other_inner) == before.spec_block_at(other_inner));
                    assert(chunk.spec_block_rotation(other_inner) == before.spec_block_rotation(
                        other_inner,
                    ));
                }
            }
            assert(inner.spec_valid());
        }
    }
}

} // verus!
