//! The logic system: wires, gates and the signals between them.

use vstd::prelude::*;

use crate::block::block_direction::BlockDirection;
use crate::block::block_face::BlockFace;
use crate::block::Block;
use crate::logic::collections::PortSet;
use crate::registry::{Identifiable, Registry};
use crate::structure::coordinates::BlockCoordinate;

pub mod collections;
pub mod edit;
pub mod events;
pub mod laws;
pub mod laws_block;
pub mod laws_wire;
pub mod laws_world;
pub mod logic_driver;
pub mod logic_graph;
pub mod search;
pub mod world;

verus! {

/// The bit index of the on/off logic value inside a block's info byte.
pub const LOGIC_BIT: usize = 7;

/// Signals are consumed and produced this many times per second.
pub const LOGIC_TICKS_PER_SECOND: u64 = 20;

/// The four numbers that stand for a port in hash tables: x, y, z and the number of the
/// direction.
pub type PortKey = (u64, u64, u64, u8);

/// The kinds of logic port. A port reads or writes the signal of the group in front of it.
#[derive(Debug, Copy, Clone, PartialEq, Eq, Structural)]
pub enum PortType {
    /// Reads the signal of the group in front of this face to help compute the block's own
    /// signal.
    Input,
    /// Writes the block's own signal to the group in front of this face.
    Output,
}

/// How a face of a block takes part in the logic network.
#[derive(Debug, Copy, Clone, PartialEq, Eq, Structural)]
pub enum LogicConnection {
    /// An input or output port.
    Port(PortType),
    /// Joins the groups around it without delay and without a signal of its own.
    Wire,
}

/// A block that takes part in the logic system, like a wire or a gate: the role of each of
/// its six faces and the signal it holds when it is placed.
#[derive(Debug, Clone)]
pub struct LogicBlock {
    // The roles of the six faces, in the order of `BlockFace::index`.
    connections: [Option<LogicConnection>; 6],
    initial_signal: i32,
    id: u16,
    unlocalized_name: String,
}

/// Whether `faces` lists faces in the order of their index, each at most once.
pub open spec fn faces_in_order(faces: Seq<BlockFace>) -> bool {
    forall|i: int, j: int|
        0 <= i < j < faces.len() ==> (#[trigger] faces[i]).spec_index() < (
        #[trigger] faces[j]).spec_index()
}

/// Whether two roles of a face are the same role.
fn same_connection(a: Option<LogicConnection>, b: Option<LogicConnection>) -> (same: bool)
    ensures
        same == (a == b),
{
    match (a, b) {
        (None, None) => true,
        (Some(LogicConnection::Wire), Some(LogicConnection::Wire)) => true,
        (
            Some(LogicConnection::Port(PortType::Input)),
            Some(LogicConnection::Port(PortType::Input)),
        ) => true,
        (
            Some(LogicConnection::Port(PortType::Output)),
            Some(LogicConnection::Port(PortType::Output)),
        ) => true,
        _ => false,
    }
}

impl LogicBlock {
    /// The role of `face`.
    pub closed spec fn spec_connection_on(&self, face: BlockFace) -> Option<LogicConnection> {
        self.connections[face.spec_index()]
    }

    /// The signal that a block of this kind holds when it is placed.
    pub closed spec fn spec_initial_signal(&self) -> i32 {
        self.initial_signal
    }

    /// The faces among the first `count` whose role is `connection`, in the order of their
    /// index.
    pub open spec fn spec_faces_below(
        &self,
        connection: Option<LogicConnection>,
        count: int,
    ) -> Seq<BlockFace>
        decreases count,
    {
        if count <= 0 {
            Seq::empty()
        } else {
            let face = BlockFace::spec_from_index(count - 1);
            let before = self.spec_faces_below(connection, count - 1);
            if self.spec_connection_on(face) == connection {
                before.push(face)
            } else {
                before
            }
        }
    }

    /// The faces whose role is `connection`, in the order of their index.
    pub open spec fn spec_faces_with(&self, connection: Option<LogicConnection>) -> Seq<BlockFace> {
        self.spec_faces_below(connection, 6)
    }

    /// The directions in which the faces with the role `connection` point when the block is
    /// turned to `rotation`, in the order of the faces.
    pub open spec fn spec_directions_with(
        &self,
        connection: Option<LogicConnection>,
        rotation: BlockFace,
    ) -> Seq<BlockDirection> {
        self.spec_faces_with(connection).map_values(|face: BlockFace| rotation.spec_direction_of(face))
    }

    /// Links the logic roles of six faces, given in the order Right, Left, Top, Bottom, Front,
    /// Back, to the block named like `block`.
    pub fn new(
        block: &Block,
        connections: [Option<LogicConnection>; 6],
        initial_signal: i32,
    ) -> (logic_block: LogicBlock)
        ensures
            logic_block.spec_id() == 0,
            logic_block.spec_unlocalized_name() == block.spec_unlocalized_name(),
            logic_block.spec_initial_signal() == initial_signal,
            forall|face: BlockFace| #[trigger]
                logic_block.spec_connection_on(face) == connections[face.spec_index()],
    {
        LogicBlock {
            connections,
            initial_signal,
            id: 0,
            unlocalized_name: block.unlocalized_name().to_owned(),
        }
    }

    /// The role of `face`.
    pub fn connection_on(&self, face: BlockFace) -> (connection: Option<LogicConnection>)
        ensures
            connection == self.spec_connection_on(face),
    {
        self.connections[face.index()]
    }

    /// The signal that a block of this kind holds when it is placed.
    pub fn initial_signal(&self) -> (signal: i32)
        ensures
            signal == self.spec_initial_signal(),
    {
        self.initial_signal
    }

    /// The faces that have any logic role, in the order of their index.
    pub fn faces(&self) -> (faces: Vec<BlockFace>)
        ensures
            faces_in_order(faces@),
            forall|face: BlockFace|
                faces@.contains(face) <==> self.spec_connection_on(face).is_some(),
    {
        let mut faces: Vec<BlockFace> = Vec::new();
        let mut i: usize = 0;
        while i < 6
            invariant
                i <= 6,
                faces_in_order(faces@),
                forall|k: int| 0 <= k < faces@.len() ==> (#[trigger] faces@[k]).spec_index() < i,
                forall|face: BlockFace|
                    faces@.contains(face) <==> face.spec_index() < i && self.spec_connection_on(
                        face,
                    ) != None::<LogicConnection>,
            decreases 6 - i,
        {
            let face = BlockFace::from_index(i);
            let ghost before = faces@;
            let connection = self.connections[i];
            assert(connection == self.spec_connection_on(face));
            if connection.is_some() {
                faces.push(face);
                proof {
                    assert(faces@[before.len() as int] == face);
                    assert forall|other: BlockFace| faces@.contains(other) implies before.contains(
                        other,
                    ) || other == face by {
                        let k = choose|k: int| 0 <= k < faces@.len() && faces@[k] == other;
                        if k < before.len() {
                            assert(before[k] == other);
                        }
                    }
                    assert forall|other: BlockFace| before.contains(other) implies faces@.contains(
                        other,
                    ) by {
                        let k = choose|k: int| 0 <= k < before.len() && before[k] == other;
                        assert(faces@[k] == other);
                    }
                }
            }
            proof {
                assert forall|other: BlockFace| other.spec_index() == i implies other == face by {
                    crate::block::block_face::lemma_face_index_round_trip(other, i as int);
                }
            }
            i += 1;
        }
        faces
    }

    /// The faces whose role is `connection`, in the order of their index: for example all
    /// faces with an input port, or all faces without a role.
    pub fn faces_with(&self, connection: Option<LogicConnection>) -> (faces: Vec<BlockFace>)
        ensures
            faces@ == self.spec_faces_with(connection),
            faces@.len() <= 6,
            faces_in_order(faces@),
            forall|face: BlockFace|
                faces@.contains(face) <==> self.spec_connection_on(face) == connection,
    {
        let mut faces: Vec<BlockFace> = Vec::new();
        let mut i: usize = 0;
        while i < 6
            invariant
                i <= 6,
                faces_in_order(faces@),
                forall|k: int| 0 <= k < faces@.len() ==> (#[trigger] faces@[k]).spec_index() < i,
                forall|face: BlockFace|
                    faces@.contains(face) <==> face.spec_index() < i && self.spec_connection_on(
                        face,
                    ) == connection,
                faces@ == self.spec_faces_below(connection, i as int),
                faces@.len() <= i,
            decreases 6 - i,
        {
            let face = BlockFace::from_index(i);
            let ghost before = faces@;
            assert(self.connections[i as int] == self.spec_connection_on(face));
            if same_connection(self.connections[i], connection) {
                faces.push(face);
                proof {
                    assert(faces@[before.len() as int] == face);
                    assert forall|other: BlockFace| faces@.contains(other) implies before.contains(
                        other,
                    ) || other == face by {
                        let k = choose|k: int| 0 <= k < faces@.len() && faces@[k] == other;
                        if k < before.len() {
                            assert(before[k] == other);
                        }
                    }
                    assert forall|other: BlockFace| before.contains(other) implies faces@.contains(
                        other,
                    ) by {
                        let k = choose|k: int| 0 <= k < before.len() && before[k] == other;
                        assert(faces@[k] == other);
                    }
                }
            }
            proof {
                assert forall|other: BlockFace| other.spec_index() == i implies other == face by {
                    crate::block::block_face::lemma_face_index_round_trip(other, i as int);
                }
            }
            i += 1;
        }
        faces
    }

    /// The faces with an input port, in the order of their index.
    pub fn input_faces(&self) -> (faces: Vec<BlockFace>)
        ensures
            faces@ == self.spec_faces_with(Some(LogicConnection::Port(PortType::Input))),
            faces@.len() <= 6,
            faces_in_order(faces@),
            forall|face: BlockFace|
                faces@.contains(face) <==> self.spec_connection_on(face) == Some(
                    LogicConnection::Port(PortType::Input),
                ),
    {
        self.faces_with(Some(LogicConnection::Port(PortType::Input)))
    }

    /// The faces with an output port, in the order of their index.
    pub fn output_faces(&self) -> (faces: Vec<BlockFace>)
        ensures
            faces@ == self.spec_faces_with(Some(LogicConnection::Port(PortType::Output))),
            faces@.len() <= 6,
            faces_in_order(faces@),
            forall|face: BlockFace|
                faces@.contains(face) <==> self.spec_connection_on(face) == Some(
                    LogicConnection::Port(PortType::Output),
                ),
    {
        self.faces_with(Some(LogicConnection::Port(PortType::Output)))
    }

    /// The faces that are wires, in the order of their index.
    pub fn wire_faces(&self) -> (faces: Vec<BlockFace>)
        ensures
            faces@ == self.spec_faces_with(Some(LogicConnection::Wire)),
            faces@.len() <= 6,
            faces_in_order(faces@),
            forall|face: BlockFace|
                faces@.contains(face) <==> self.spec_connection_on(face) == Some(
                    LogicConnection::Wire,
                ),
    {
        self.faces_with(Some(LogicConnection::Wire))
    }

    /// The faces without a logic role, in the order of their index.
    pub fn non_logic_faces(&self) -> (faces: Vec<BlockFace>)
        ensures
            faces@ == self.spec_faces_with(None),
            faces@.len() <= 6,
            faces_in_order(faces@),
            forall|face: BlockFace|
                faces@.contains(face) <==> self.spec_connection_on(face).is_none(),
    {
        self.faces_with(None)
    }
}

impl Identifiable for LogicBlock {
    closed spec fn spec_id(&self) -> u16 {
        self.id
    }

    closed spec fn spec_unlocalized_name(&self) -> Seq<char> {
        self.unlocalized_name@
    }

    closed spec fn spec_with_id(&self, id: u16) -> LogicBlock {
        LogicBlock {
            connections: self.connections,
            initial_signal: self.initial_signal,
            id,
            unlocalized_name: self.unlocalized_name,
        }
    }

    proof fn lemma_with_id(&self, id: u16) {
    }

    fn id(&self) -> (id: u16) {
        self.id
    }

    fn set_numeric_id(&mut self, id: u16) {
        self.id = id;
    }

    fn unlocalized_name(&self) -> (name: &str) {
        self.unlocalized_name.as_str()
    }

    fn is_named(&self, name: &String) -> (same: bool) {
        self.unlocalized_name == *name
    }
}

/// Registering a logic block changes its numeric id and nothing about its faces or signal.
pub proof fn law_registering_keeps_roles(logic_block: LogicBlock, id: u16)
    ensures
        logic_block.spec_with_id(id).spec_initial_signal() == logic_block.spec_initial_signal(),
        forall|face: BlockFace|
            logic_block.spec_with_id(id).spec_connection_on(face) == logic_block.spec_connection_on(
                face,
            ),
{
}

impl Registry<LogicBlock> {
    /// The logic roles of `block`, if it has any.
    pub open spec fn spec_for_block(&self, block: &Block) -> Option<LogicBlock> {
        self.spec_from_id(block.spec_unlocalized_name())
    }

    /// The logic roles of `block`. `None` means that the block takes no part in the logic
    /// network.
    pub fn for_block(&self, block: &Block) -> (found: Option<&LogicBlock>)
        ensures
            match found {
                Some(logic_block) => self.spec_for_block(block) == Some(*logic_block),
                None => self.spec_for_block(block).is_none(),
            },
    {
        self.from_id(block.unlocalized_name())
    }
}

/// One connection point of the network: a block and the direction one of its faces points in,
/// block rotation already applied. What lies one step in that direction is connected to the
/// port.
#[derive(Debug, Copy, Clone, PartialEq, Eq, Hash, Structural)]
pub struct Port {
    /// The coordinates of the logic block.
    pub coords: BlockCoordinate,
    /// The direction the port points in.
    pub direction: BlockDirection,
}

impl Port {
    /// The four numbers that stand for this port in hash tables.
    pub open spec fn spec_key(self) -> PortKey {
        (self.coords.x, self.coords.y, self.coords.z, self.direction.spec_index() as u8)
    }

    /// The port that a key stands for.
    pub open spec fn spec_from_key(key: PortKey) -> Port {
        Port {
            coords: BlockCoordinate { x: key.0, y: key.1, z: key.2 },
            direction: BlockDirection::spec_from_index(key.3 as int),
        }
    }

    /// The six ports of the block at `coords`, one per direction.
    pub open spec fn spec_all_for(coords: BlockCoordinate) -> Set<Port> {
        Set::new(|p: Port| p.coords == coords)
    }

    /// The port this port faces: one step along its direction, pointing back. `None` where
    /// that step leaves a structure of the given size.
    pub open spec fn spec_facing(self, dimensions: BlockCoordinate) -> Option<Port> {
        match self.coords.spec_neighbor(self.direction, dimensions) {
            Some(next) => Some(Port { coords: next, direction: self.direction.spec_inverse() }),
            None => None,
        }
    }

    /// A port from the block it belongs to and the direction it points in.
    pub fn new(coords: BlockCoordinate, direction: BlockDirection) -> (port: Port)
        ensures
            port == (Port { coords, direction }),
    {
        Port { coords, direction }
    }

    /// The six ports of the block at `coords`, one per direction, as a set. A search that
    /// starts with them marked never passes through that block.
    pub fn all_for(coords: BlockCoordinate) -> (all: PortSet)
        ensures
            all@ == Port::spec_all_for(coords),
    {
        let mut all = PortSet::new();
        let mut i: usize = 0;
        while i < 6
            invariant
                i <= 6,
                forall|p: Port|
                    all@.contains(p) <==> p.coords == coords && p.direction.spec_index() < i,
            decreases 6 - i,
        {
            all.insert(Port { coords, direction: BlockDirection::from_index(i) });
            proof {
                assert forall|p: Port|
                    all@.contains(p) <==> p.coords == coords && p.direction.spec_index() < i
                        + 1 by {
                    crate::block::block_direction::lemma_direction_index_round_trip(
                        p.direction,
                        i as int,
                    );
                }
            }
            i += 1;
        }
        proof {
            assert forall|p: Port| all@.contains(p) <==> Port::spec_all_for(coords).contains(p) by {
                crate::block::block_direction::lemma_direction_index_round_trip(p.direction, 0);
            }
            assert(all@ =~= Port::spec_all_for(coords));
        }
        all
    }

    /// The four numbers that stand for this port in hash tables.
    pub fn key(&self) -> (key: PortKey)
        ensures
            key == self.spec_key(),
            Port::spec_from_key(key) == *self,
    {
        (self.coords.x, self.coords.y, self.coords.z, self.direction.index() as u8)
    }

    /// The port this port faces inside a structure of the given size, if the step stays inside.
    pub fn facing(&self, dimensions: BlockCoordinate) -> (other: Option<Port>)
        ensures
            other == self.spec_facing(dimensions),
    {
        match self.coords.neighbor(self.direction, dimensions) {
            Ok(next) => Some(Port { coords: next, direction: self.direction.inverse() }),
            Err(_) => None,
        }
    }
}

/// Two ports with the same key are the same port.
pub proof fn lemma_port_key_injective(a: Port, b: Port)
    requires
        a.spec_key() == b.spec_key(),
    ensures
        a == b,
{
    assert(Port::spec_from_key(a.spec_key()) == a);
    assert(Port::spec_from_key(b.spec_key()) == b);
}

/// The signal that a logic block holds. A block with an output port computes this value one
/// tick before it puts it out.
#[derive(Clone, Copy, PartialEq, Eq, Debug, Structural)]
pub struct BlockLogicData(pub i32);

impl BlockLogicData {
    /// For Boolean use: 0 is off, anything else is on.
    pub fn on(&self) -> (on: bool)
        ensures
            on == (self.0 != 0),
    {
        self.0 != 0
    }
}

} // verus!
