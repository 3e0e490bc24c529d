//! Blocks and the ways to name their sides.

use vstd::prelude::*;

use crate::registry::Identifiable;

pub mod block_direction;
pub mod block_face;
pub mod specific_blocks;

verus! {

/// The numeric id of the block that stands for empty space.
pub const AIR_BLOCK_ID: u16 = 0;

/// A kind of block: what every block of that kind has in common.
#[derive(Debug, Clone, PartialEq, Eq)]
pub struct Block {
    id: u16,
    unlocalized_name: String,
}

impl Block {
    /// A kind of block with the given name. Its numeric id is set when it is registered.
    pub fn new(unlocalized_name: String) -> (block: Block)
        ensures
            block.spec_id() == 0,
            block.spec_unlocalized_name() == unlocalized_name@,
    {
        Block { id: 0, unlocalized_name }
    }
}

impl Identifiable for Block {
    closed spec fn spec_id(&self) -> u16 {
        self.id
    }

    closed spec fn spec_unlocalized_name(&self) -> Seq<char> {
        self.unlocalized_name@
    }

    closed spec fn spec_with_id(&self, id: u16) -> Block {
        Block { id, unlocalized_name: self.unlocalized_name }
    }

    proof fn lemma_with_id(&self, id: u16) {
    }

    fn id(&self) -> (id: u16) {
        self.id
    }

    fn set_numeric_id(&mut self, id: u16) {
        self.id = id;
    }

    fn unlocalized_name(&self) -> (name: &str) {
        self.unlocalized_name.as_str()
    }

    fn is_named(&self, name: &String) -> (same: bool) {
        self.unlocalized_name == *name
    }
}

} // verus!
