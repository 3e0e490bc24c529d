//! The AND block: inputs on its right and left, an output on its front. It puts out 1 if
//! both inputs are there and not 0, else 0.

use vstd::prelude::*;

use crate::block::block_face::BlockFace;
use crate::logic::{BlockLogicData, LogicConnection, PortType};

verus! {

/// The name of the AND block.
pub fn and_gate_name() -> (name: &'static str)
    ensures
        name@ == "cosmos:and_gate"@,
{
    "cosmos:and_gate"
}

/// The roles of the faces of the AND block, in the order Right, Left, Top, Bottom, Front,
/// Back: the right and the left face are inputs, the front is the output.
pub fn and_gate_connections() -> (connections: [Option<LogicConnection>; 6])
    ensures
        forall|face: BlockFace|
            connections[face.spec_index()] == match face {
                BlockFace::Right | BlockFace::Left => Some(LogicConnection::Port(PortType::Input)),
                BlockFace::Front => Some(LogicConnection::Port(PortType::Output)),
                _ => None::<LogicConnection>,
            },
{
    [
        Some(LogicConnection::Port(PortType::Input)),
        Some(LogicConnection::Port(PortType::Input)),
        None,
        None,
        Some(LogicConnection::Port(PortType::Output)),
        None,
    ]
}

/// The signal that the AND block holds when its left input reads `left` and its right input
/// reads `right`: 1 if neither is 0, else 0.
pub fn and_gate_signal(left: i32, right: i32) -> (data: BlockLogicData)
    ensures
        data.0 == if left != 0 && right != 0 {
            1i32
        } else {
            0i32
        },
{
    if left != 0 && right != 0 {
        BlockLogicData(1)
    } else {
        BlockLogicData(0)
    }
}

} // verus!
