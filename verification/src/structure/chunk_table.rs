//! The table in which a structure keeps its chunks.
//!
//! The table is a `bevy::utils::HashMap`, which is the table of `hashbrown` with the hasher
//! that bevy chooses, from the place of a chunk to the chunk. What it holds is named by a
//! spec function; the functions that touch the table state their effect on that name, and
//! Verus takes their word for it.

use bevy::utils::HashMap;
use vstd::prelude::*;

use crate::structure::chunk::Chunk;

verus! {

/// A hash table from places to chunks.
#[verifier::external_body]
#[derive(Debug)]
pub struct ChunkMap {
    map: HashMap<usize, Chunk>,
}

/// What a [`ChunkMap`] holds.
pub uninterp spec fn chunk_map_entries(table: ChunkMap) -> Map<usize, Chunk>;

impl ChunkMap {
    /// Calls `HashMap::default` of hashbrown: the new table holds nothing.
    #[verifier::external_body]
    pub(crate) fn new() -> (table: ChunkMap)
        ensures
            chunk_map_entries(table).dom() == Set::<usize>::empty(),
    {
        ChunkMap { map: HashMap::default() }
    }

    /// Calls `HashMap::insert` of hashbrown: afterwards `place` maps to `chunk` and every
    /// other place is as before; the chunk that `place` had before is returned.
    #[verifier::external_body]
    pub(crate) fn insert(&mut self, place: usize, chunk: Chunk) -> (previous: Option<Chunk>)
        ensures
            chunk_map_entries(*final(self)) == chunk_map_entries(*old(self)).insert(place, chunk),
            previous == if chunk_map_entries(*old(self)).contains_key(place) {
                Some(chunk_map_entries(*old(self))[place])
            } else {
                None
            },
    {
        self.map.insert(place, chunk)
    }

    /// Calls `HashMap::remove` of hashbrown: afterwards `place` is absent and every other
    /// place is as before; the chunk that `place` had before is returned.
    #[verifier::external_body]
    pub(crate) fn remove(&mut self, place: usize) -> (previous: Option<Chunk>)
        ensures
            chunk_map_entries(*final(self)) == chunk_map_entries(*old(self)).remove(place),
            previous == if chunk_map_entries(*old(self)).contains_key(place) {
                Some(chunk_map_entries(*old(self))[place])
            } else {
                None
            },
    {
        self.map.remove(&place)
    }

    /// Calls `HashMap::get` of hashbrown: the chunk of `place`, if the table has one.
    #[verifier::external_body]
    pub(crate) fn get(&self, place: usize) -> (chunk: Option<&Chunk>)
        ensures
            chunk == if chunk_map_entries(*self).contains_key(place) {
                Some(&chunk_map_entries(*self)[place])
            } else {
                None
            },
    {
        self.map.get(&place)
    }
}

} // verus!
