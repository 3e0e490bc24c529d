//! Blocks that store fluid.

use vstd::prelude::*;

use crate::block::Block;
use crate::registry::Identifiable;

verus! {

/// Says of a kind of block that it is a fluid tank, and how much it holds.
#[derive(Debug, Clone)]
pub struct FluidTankBlock {
    id: u16,
    unlocalized_name: String,
    max_capacity: u32,
}

impl FluidTankBlock {
    /// The most fluid that a block of this kind can store.
    pub closed spec fn spec_max_capacity(&self) -> u32 {
        self.max_capacity
    }

    /// Says that blocks named like `block` are fluid tanks that store up to `max_capacity`.
    pub fn new(block: &Block, max_capacity: u32) -> (tank: FluidTankBlock)
        ensures
            tank.spec_id() == 0,
            tank.spec_unlocalized_name() == block.spec_unlocalized_name(),
            tank.spec_max_capacity() == max_capacity,
    {
        FluidTankBlock {
            id: 0,
            max_capacity,
            unlocalized_name: block.unlocalized_name().to_owned(),
        }
    }

    /// The most fluid that a block of this kind can store.
    pub fn max_capacity(&self) -> (capacity: u32)
        ensures
            capacity == self.spec_max_capacity(),
    {
        self.max_capacity
    }
}

impl Identifiable for FluidTankBlock {
    closed spec fn spec_id(&self) -> u16 {
        self.id
    }

    closed spec fn spec_unlocalized_name(&self) -> Seq<char> {
        self.unlocalized_name@
    }

    closed spec fn spec_with_id(&self, id: u16) -> FluidTankBlock {
        FluidTankBlock {
            id,
            unlocalized_name: self.unlocalized_name,
            max_capacity: self.max_capacity,
        }
    }

    proof fn lemma_with_id(&self, id: u16) {
    }

    fn id(&self) -> (id: u16) {
        self.id
    }

    fn set_numeric_id(&mut self, id: u16) {
        self.id = id;
    }

    fn unlocalized_name(&self) -> (name: &str) {
        self.unlocalized_name.as_str()
    }

    fn is_named(&self, name: &String) -> (same: bool) {
        self.unlocalized_name == *name
    }
}

/// Registering a fluid tank changes its numeric id and not what it holds.
pub proof fn law_registering_keeps_capacity(tank: FluidTankBlock, id: u16)
    ensures
        tank.spec_with_id(id).spec_max_capacity() == tank.spec_max_capacity(),
{
}

} // verus!
