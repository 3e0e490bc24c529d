//! The logic network that a structure's blocks form, whatever the graph has recorded of it:
//! the role of every face of every block, and what can be reached from where along wires.

use vstd::prelude::*;

use crate::block::block_direction::BlockDirection;
use crate::block::Block;
use crate::logic::{LogicBlock, LogicConnection, Port};
use crate::registry::Registry;
use crate::structure::base_structure::{lemma_flatten, spec_flatten, spec_unflatten, spec_volume};
use crate::structure::coordinates::{BlockCoordinate, ChunkCoordinate};
use crate::structure::Structure;

verus! {

/// The roles of the faces of the blocks of one structure.
pub struct LogicWorld {
    /// The size of the structure in blocks.
    pub dimensions: BlockCoordinate,
    /// The role of every face that has one, named by the port that the face is.
    pub connections: Map<Port, LogicConnection>,
}

impl LogicWorld {
    /// There are only finitely many faces with a role.
    pub open spec fn wf(self) -> bool {
        self.connections.dom().finite()
    }

    /// The role of the face that `port` is.
    pub open spec fn connection(self, port: Port) -> Option<LogicConnection> {
        if self.connections.contains_key(port) {
            Some(self.connections[port])
        } else {
            None
        }
    }

    /// Whether the face that `port` is belongs to a wire.
    pub open spec fn is_wire(self, port: Port) -> bool {
        self.connections.contains_key(port) && self.connections[port] == LogicConnection::Wire
    }

    /// Whether a signal that enters a wire block at `from` gets to `to` through that block
    /// alone: it leaves the block through one of its wire faces that is not blocked, and
    /// `to` is what that face faces.
    pub open spec fn wire_step(self, blocked: Set<Port>, from: Port, to: Port) -> bool {
        let exit = Port { coords: from.coords, direction: to.direction.spec_inverse() };
        &&& self.is_wire(from)
        &&& self.is_wire(exit)
        &&& !blocked.contains(exit)
        &&& exit.spec_facing(self.dimensions) == Some(to)
    }

    /// Whether `path` leads from its first port to its last through wire blocks, one block
    /// per step, and never through a blocked port.
    pub open spec fn is_path(self, blocked: Set<Port>, path: Seq<Port>) -> bool {
        &&& path.len() > 0
        &&& forall|i: int| 0 <= i < path.len() ==> !blocked.contains(#[trigger] path[i])
        &&& forall|i: int|
            0 <= i < path.len() - 1 ==> self.wire_step(blocked, path[i], #[trigger] path[i + 1])
    }

    /// Whether wires lead from `start` to `target` without passing a blocked port. A port
    /// that is not blocked reaches itself.
    pub open spec fn reaches(self, blocked: Set<Port>, start: Port, target: Port) -> bool {
        exists|path: Seq<Port>|
            #[trigger] self.is_path(blocked, path) && path[0] == start && path.last() == target
    }

    /// Whether wires lead from `start`, without passing a blocked port, to a wire face of the
    /// block at `coords`.
    pub open spec fn reaches_wire_block(
        self,
        blocked: Set<Port>,
        start: Port,
        coords: BlockCoordinate,
    ) -> bool {
        exists|e: Port| #[trigger]
            self.reaches(blocked, start, e) && self.is_wire(e) && e.coords == coords
    }
}

/// The role of the face that `port` is in `structure`: the role that the logic block
/// registered for the block at the port's coordinates gives to the face that points in the
/// port's direction. Blocks outside the structure, blocks of an unknown kind and blocks
/// without a registered logic block have no role on any face.
pub open spec fn spec_connection_at(
    structure: &Structure,
    blocks: &Registry<Block>,
    logic_blocks: &Registry<LogicBlock>,
    port: Port,
) -> Option<LogicConnection> {
    if !port.coords.spec_within(structure.base().spec_block_dimensions()) {
        None
    } else {
        match blocks.spec_get(structure.base().spec_block_id_at(port.coords)) {
            None => None,
            Some(block) => match logic_blocks.spec_for_block(&block) {
                None => None,
                Some(logic_block) => logic_block.spec_connection_on(
                    structure.base().spec_block_rotation(port.coords).spec_face_pointing(
                        port.direction,
                    ),
                ),
            },
        }
    }
}

/// The logic network that the blocks of `structure` form.
pub open spec fn world_of(
    structure: &Structure,
    blocks: &Registry<Block>,
    logic_blocks: &Registry<LogicBlock>,
) -> LogicWorld {
    LogicWorld {
        dimensions: structure.base().spec_block_dimensions(),
        connections: Map::new(
            |p: Port| spec_connection_at(structure, blocks, logic_blocks, p).is_some(),
            |p: Port| spec_connection_at(structure, blocks, logic_blocks, p).unwrap(),
        ),
    }
}

/// The role of the face that `port` is in `structure`.
pub fn connection_at(
    structure: &Structure,
    blocks: &Registry<Block>,
    logic_blocks: &Registry<LogicBlock>,
    port: Port,
) -> (connection: Option<LogicConnection>)
    requires
        structure.wf(),
    ensures
        connection == world_of(structure, blocks, logic_blocks).connection(port),
        connection == spec_connection_at(structure, blocks, logic_blocks, port),
{
    if !structure.is_within_blocks(port.coords) {
        return None;
    }
    let id = structure.block_id_at(port.coords);
    match blocks.get(id) {
        None => None,
        Some(block) => match logic_blocks.for_block(block) {
            None => None,
            Some(logic_block) => logic_block.connection_on(
                structure.block_rotation(port.coords).face_pointing(port.direction),
            ),
        },
    }
}

/// The port that the number `index` stands for when the ports of a structure of the given
/// size are counted block by block.
pub open spec fn spec_port_numbered(dimensions: BlockCoordinate, index: int) -> Port {
    let block = spec_unflatten(
        ChunkCoordinate { x: dimensions.x, y: dimensions.y, z: dimensions.z },
        index / 6,
    );
    Port {
        coords: BlockCoordinate { x: block.x, y: block.y, z: block.z },
        direction: BlockDirection::spec_from_index(index % 6),
    }
}

/// The ports of the blocks inside a structure are finitely many.
pub proof fn lemma_ports_within_finite(dimensions: BlockCoordinate)
    ensures
        Set::new(|p: Port| p.coords.spec_within(dimensions)).finite(),
{
    let inside = Set::new(|p: Port| p.coords.spec_within(dimensions));
    let as_chunk = ChunkCoordinate { x: dimensions.x, y: dimensions.y, z: dimensions.z };
    let count = spec_volume(as_chunk) * 6;
    assert(spec_volume(as_chunk) >= 0) by (nonlinear_arith)
        requires
            spec_volume(as_chunk) == as_chunk.x * as_chunk.y * as_chunk.z,
            as_chunk.x >= 0,
            as_chunk.y >= 0,
            as_chunk.z >= 0,
    ;
    let numbers = vstd::set_lib::set_int_range(0, count);
    vstd::set_lib::lemma_int_range(0, count);
    let numbered = |i: int| spec_port_numbered(dimensions, i);
    numbers.lemma_map_finite(numbered);
    assert forall|p: Port| inside.contains(p) implies numbers.map(numbered).contains(p) by {
        let c = ChunkCoordinate { x: p.coords.x, y: p.coords.y, z: p.coords.z };
        lemma_flatten(as_chunk, c);
        let flat = spec_flatten(as_chunk, c);
        let i = flat * 6 + p.direction.spec_index();
        vstd::arithmetic::div_mod::lemma_fundamental_div_mod_converse(
            i,
            6,
            flat,
            p.direction.spec_index(),
        );
        assert(numbered(i) == p);
        assert(numbers.contains(i));
    }
    vstd::set_lib::lemma_set_subset_finite(numbers.map(numbered), inside);
}

/// The logic network of a structure has finitely many faces with a role.
pub proof fn lemma_world_wf(
    structure: &Structure,
    blocks: &Registry<Block>,
    logic_blocks: &Registry<LogicBlock>,
)
    ensures
        world_of(structure, blocks, logic_blocks).wf(),
{
    let world = world_of(structure, blocks, logic_blocks);
    let inside = Set::new(|p: Port| p.coords.spec_within(world.dimensions));
    lemma_ports_within_finite(world.dimensions);
    assert(world.connections.dom().subset_of(inside));
    vstd::set_lib::lemma_set_subset_finite(inside, world.connections.dom());
}

/// One more step along a wire extends what is reached.
pub proof fn lemma_reach_step(
    world: LogicWorld,
    blocked: Set<Port>,
    start: Port,
    from: Port,
    to: Port,
)
    requires
        world.reaches(blocked, start, from),
        world.wire_step(blocked, from, to),
        !blocked.contains(to),
    ensures
        world.reaches(blocked, start, to),
{
    let path = choose|path: Seq<Port>|
        #[trigger] world.is_path(blocked, path) && path[0] == start && path.last() == from;
    let longer = path.push(to);
    assert forall|i: int| 0 <= i < longer.len() - 1 implies world.wire_step(
        blocked,
        longer[i],
        #[trigger] longer[i + 1],
    ) by {
        if i < path.len() - 1 {
            assert(longer[i] == path[i]);
            assert(longer[i + 1] == path[i + 1]);
        }
    }
    assert(world.is_path(blocked, longer));
    assert(longer[0] == start && longer.last() == to);
}

/// A port that is not blocked reaches itself.
pub proof fn lemma_reach_self(world: LogicWorld, blocked: Set<Port>, start: Port)
    requires
        !blocked.contains(start),
    ensures
        world.reaches(blocked, start, start),
{
    let path = seq![start];
    assert(world.is_path(blocked, path));
    assert(path[0] == start && path.last() == start);
}

/// From a blocked port nothing is reached, and what is reached is not blocked.
pub proof fn lemma_reach_not_blocked(
    world: LogicWorld,
    blocked: Set<Port>,
    start: Port,
    target: Port,
)
    requires
        world.reaches(blocked, start, target),
    ensures
        !blocked.contains(start),
        !blocked.contains(target),
{
    let path = choose|path: Seq<Port>|
        #[trigger] world.is_path(blocked, path) && path[0] == start && path.last() == target;
    assert(!blocked.contains(path[0]));
    assert(!blocked.contains(path[path.len() - 1]));
}

/// From a port that is no wire, nothing but the port itself is reached.
pub proof fn lemma_reach_from_non_wire(
    world: LogicWorld,
    blocked: Set<Port>,
    start: Port,
    target: Port,
)
    requires
        world.reaches(blocked, start, target),
        !world.is_wire(start),
    ensures
        target == start,
{
    let path = choose|path: Seq<Port>|
        #[trigger] world.is_path(blocked, path) && path[0] == start && path.last() == target;
    if path.len() > 1 {
        assert(world.wire_step(blocked, path[0int], path[0int + 1]));
    }
}

} // verus!
