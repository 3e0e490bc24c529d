//! The logic of one structure: its graph, kept up to date with the structure's blocks, and
//! the reading and writing of signals at logic ticks.

use vstd::prelude::*;

use crate::block::block_direction::BlockDirection;
use crate::block::block_face::BlockFace;
use crate::block::Block;
use crate::logic::edit::{spec_block_added, spec_block_removed};
use crate::logic::events::{
    LogicInputEvent, LogicOutputEvent, QueueLogicInputEvent, QueueLogicOutputEvent,
};
use crate::logic::logic_graph::{LogicGraph, LogicGraphView};
use crate::logic::world::world_of;
use crate::logic::{BlockLogicData, LogicBlock, LogicConnection, Port, PortType};
use crate::registry::{Identifiable, Registry};
use crate::structure::base_structure::BlockChangedEvent;
use crate::structure::coordinates::BlockCoordinate;
use crate::structure::structure_block::StructureBlock;
use crate::structure::Structure;

verus! {

/// Drives the logic of one structure. It owns the structure's logic graph; nothing else
/// changes the graph.
pub struct LogicDriver {
    logic_graph: LogicGraph,
}

impl View for LogicDriver {
    type V = LogicGraphView;

    closed spec fn view(&self) -> LogicGraphView {
        self.logic_graph@
    }
}

/// The logic block registered for the block with the numeric id `id`, if there is one.
pub open spec fn spec_logic_block_of(
    blocks: &Registry<Block>,
    logic_blocks: &Registry<LogicBlock>,
    id: u16,
) -> Option<LogicBlock> {
    match blocks.spec_get(id) {
        Some(block) => logic_blocks.spec_for_block(&block),
        None => None,
    }
}

/// What a change of a block leaves to do outside the logic graph.
#[derive(Debug, Clone, Copy, PartialEq, Eq, Structural)]
pub struct LogicBlockChange {
    /// The signal that the place holds from now on: that of a new logic block, or none.
    pub data: Option<BlockLogicData>,
    /// The output event to ask for, if the new block has an output port.
    pub queue_output: Option<QueueLogicOutputEvent>,
    /// The input event to ask for, if the new block has an input port.
    pub queue_input: Option<QueueLogicInputEvent>,
}

/// What is left to do when `logic_block` is the logic block of the block that is now at
/// `block`: nothing if there is none; else the place holds the block's initial signal, an
/// output event is asked for if the block has an output port, and an input event if it has
/// an input port.
pub open spec fn spec_logic_block_change(
    logic_block: Option<LogicBlock>,
    block: StructureBlock,
    entity: u64,
) -> LogicBlockChange {
    match logic_block {
        Some(placed) => LogicBlockChange {
            data: Some(BlockLogicData(placed.spec_initial_signal())),
            queue_output: if placed.spec_faces_with(
                Some(LogicConnection::Port(PortType::Output)),
            ).len() > 0 {
                Some(QueueLogicOutputEvent(LogicOutputEvent { block, entity }))
            } else {
                None
            },
            queue_input: if placed.spec_faces_with(
                Some(LogicConnection::Port(PortType::Input)),
            ).len() > 0 {
                Some(QueueLogicInputEvent(LogicInputEvent { block, entity }))
            } else {
                None
            },
        },
        None => LogicBlockChange { data: None, queue_output: None, queue_input: None },
    }
}

/// The input events that ask the blocks of the ports `consumers` to read their inputs.
pub open spec fn spec_input_requests(consumers: Seq<Port>, entity: u64) -> Seq<
    QueueLogicInputEvent,
> {
    consumers.map_values(
        |port: Port|
            QueueLogicInputEvent(
                LogicInputEvent {
                    block: StructureBlock { x: port.coords.x, y: port.coords.y, z: port.coords.z },
                    entity,
                },
            ),
    )
}

impl LogicDriver {
    /// The driver's graph.
    pub closed spec fn graph(&self) -> LogicGraph {
        self.logic_graph
    }

    /// The driver's invariant: that of its graph.
    pub open spec fn wf(&self) -> bool {
        self.graph().wf() && self@ == self.graph()@
    }

    /// A driver with an empty graph.
    pub fn new() -> (driver: LogicDriver)
        ensures
            driver.wf(),
            driver@.next_group_id == 0,
            driver@.groups.dom() == Set::<usize>::empty(),
            driver@.input_groups.dom() == Set::<Port>::empty(),
            driver@.output_groups.dom() == Set::<Port>::empty(),
    {
        LogicDriver { logic_graph: LogicGraph::new() }
    }

    /// Whether the graph has ids left for `count` more groups. Adding a logic block needs
    /// room for 13, removing one for 6, a block change for 19.
    pub fn has_room_for(&self, count: usize) -> (room: bool)
        requires
            self.wf(),
        ensures
            room == (self@.next_group_id + count <= usize::MAX),
    {
        self.logic_graph.next_group_id() <= usize::MAX - count
    }

    /// The driver's graph, to look at.
    pub fn logic_graph(&self) -> (graph: &LogicGraph)
        ensures
            *graph == self.graph(),
    {
        &self.logic_graph
    }

    /// Adds a logic block, turned to `rotation`, at `coords` to the graph.
    pub fn add_logic_block(
        &mut self,
        logic_block: &LogicBlock,
        rotation: BlockFace,
        coords: BlockCoordinate,
        structure: &Structure,
        blocks: &Registry<Block>,
        logic_blocks: &Registry<LogicBlock>,
    )
        requires
            structure.wf(),
            old(self).wf(),
            old(self)@.next_group_id + 13 <= usize::MAX,
        ensures
            final(self).wf(),
            spec_block_added(
                old(self)@,
                final(self)@,
                world_of(structure, blocks, logic_blocks),
                logic_block,
                rotation,
                coords,
            ),
            old(self)@.next_group_id <= final(self)@.next_group_id <= old(self)@.next_group_id + 13,
    {
        self.logic_graph.add_logic_block(
            logic_block,
            rotation,
            coords,
            structure,
            blocks,
            logic_blocks,
        );
    }

    /// Removes a logic block, which was turned to `rotation`, at `coords` from the graph.
    pub fn remove_logic_block(
        &mut self,
        logic_block: &LogicBlock,
        rotation: BlockFace,
        coords: BlockCoordinate,
        structure: &Structure,
        blocks: &Registry<Block>,
        logic_blocks: &Registry<LogicBlock>,
    )
        requires
            structure.wf(),
            old(self).wf(),
            old(self)@.next_group_id + 6 <= usize::MAX,
        ensures
            final(self).wf(),
            spec_block_removed(
                old(self)@,
                final(self)@,
                world_of(structure, blocks, logic_blocks),
                logic_block,
                rotation,
                coords,
            ),
            old(self)@.next_group_id <= final(self)@.next_group_id <= old(self)@.next_group_id + 6,
    {
        self.logic_graph.remove_logic_block(
            logic_block,
            rotation,
            coords,
            structure,
            blocks,
            logic_blocks,
        );
    }

    /// Brings the graph up to date after a block of the structure has changed: the old block
    /// is removed from the graph if it was a logic block, then the new block is added if it
    /// is one. `entity` is the number of the entity that holds the structure.
    ///
    /// Returns what is left to do outside the graph. The place holds the signal that the new
    /// block starts with, or no signal if the new block is no logic block. A new logic block
    /// with an output port asks for an output event at the next tick, and one with an input
    /// port for an input event.
    ///
    /// A block without a registered logic block takes no part in the network, and neither
    /// does a block of a kind that is not registered at all.
    pub fn block_changed(
        &mut self,
        event: &BlockChangedEvent,
        entity: u64,
        structure: &Structure,
        blocks: &Registry<Block>,
        logic_blocks: &Registry<LogicBlock>,
    ) -> (change: LogicBlockChange)
        requires
            structure.wf(),
            old(self).wf(),
            old(self)@.next_group_id + 19 <= usize::MAX,
        ensures
            final(self).wf(),
            old(self)@.next_group_id <= final(self)@.next_group_id <= old(self)@.next_group_id + 19,
            change == spec_logic_block_change(
                spec_logic_block_of(blocks, logic_blocks, event.new_block),
                event.block,
                entity,
            ),
            ({
                let world = world_of(structure, blocks, logic_blocks);
                let coords = event.block.spec_coords();
                exists|removed: LogicGraphView|
                    #![trigger removed.inv()]
                    {
                        &&& match spec_logic_block_of(blocks, logic_blocks, event.old_block) {
                            Some(logic_block) => spec_block_removed(
                                old(self)@,
                                removed,
                                world,
                                &logic_block,
                                event.old_block_rotation,
                                coords,
                            ),
                            None => removed == old(self)@,
                        }
                        &&& match spec_logic_block_of(blocks, logic_blocks, event.new_block) {
                            Some(logic_block) => spec_block_added(
                                removed,
                                final(self)@,
                                world,
                                &logic_block,
                                event.new_block_rotation,
                                coords,
                            ),
                            None => final(self)@ == removed,
                        }
                    }
            }),
    {
        let coords = event.block.coords();
        // If it was a logic block, it leaves the graph.
        match blocks.get(event.old_block) {
            Some(block) => match logic_blocks.for_block(block) {
                Some(logic_block) => {
                    self.remove_logic_block(
                        logic_block,
                        event.old_block_rotation,
                        coords,
                        structure,
                        blocks,
                        logic_blocks,
                    );
                },
                None => {},
            },
            None => {},
        }
        let ghost removed = self@;
        proof {
            assert(removed.inv());
        }
        // If it is a logic block now, it joins the graph.
        let quiet = LogicBlockChange { data: None, queue_output: None, queue_input: None };
        match blocks.get(event.new_block) {
            Some(block) => match logic_blocks.for_block(block) {
                Some(logic_block) => {
                    self.add_logic_block(
                        logic_block,
                        event.new_block_rotation,
                        coords,
                        structure,
                        blocks,
                        logic_blocks,
                    );
                    LogicBlockChange {
                        data: Some(BlockLogicData(logic_block.initial_signal())),
                        queue_output: if logic_block.output_faces().len() > 0 {
                            Some(QueueLogicOutputEvent::new(event.block, entity))
                        } else {
                            None
                        },
                        queue_input: if logic_block.input_faces().len() > 0 {
                            Some(QueueLogicInputEvent::new(event.block, entity))
                        } else {
                            None
                        },
                    }
                },
                None => quiet,
            },
            None => quiet,
        }
    }

    /// The signal that the input port on the face `face` of the block at `coords` reads,
    /// where `rotation` tells how the block is turned: the signal of the port's group, or 0
    /// where the face has no input port that the graph knows.
    pub fn global_port_input(&self, coords: BlockCoordinate, rotation: BlockFace, face: BlockFace) -> (signal:
        i32)
        requires
            self.wf(),
        ensures
            signal == self@.port_input(
                Port { coords, direction: rotation.spec_direction_of(face) },
            ),
    {
        self.logic_graph.port_input(Port::new(coords, rotation.direction_of(face)))
    }

    /// Writes `signal` from the output port `port` to its group, in place of the signal the
    /// group had. Input ports of the group read the new signal from the next time they
    /// read. If the signal of the group changed, an input event is asked for for the block
    /// of each input port of the group; the requests are returned. `entity` is the number
    /// of the entity that holds the structure.
    pub fn update_producer(&mut self, port: Port, signal: i32, entity: u64) -> (requests: Vec<
        QueueLogicInputEvent,
    >)
        requires
            old(self).wf(),
        ensures
            final(self).wf(),
            final(self)@ == old(self)@.produced(port, signal),
            exists|consumers: Seq<Port>|
                #![trigger spec_input_requests(consumers, entity)]
                {
                    &&& requests@ == spec_input_requests(consumers, entity)
                    &&& consumers.no_duplicates()
                    &&& consumers.to_set() == old(self)@.readers_of_write(port, signal)
                },
    {
        let consumers = self.logic_graph.update_producer(port, signal);
        let mut requests: Vec<QueueLogicInputEvent> = Vec::new();
        let mut i: usize = 0;
        while i < consumers.len()
            invariant
                i <= consumers.len(),
                requests@ == spec_input_requests(consumers@.take(i as int), entity),
            decreases consumers.len() - i,
        {
            requests.push(QueueLogicInputEvent::new(StructureBlock::at(consumers[i].coords), entity));
            proof {
                assert(requests@ =~= spec_input_requests(consumers@.take(i + 1), entity));
            }
            i += 1;
        }
        proof {
            assert(consumers@.take(consumers@.len() as int) == consumers@);
        }
        requests
    }

    /// Reads the signals of the input ports `ports`, in their order: the consume phase of a
    /// logic tick for these ports. Nothing is written.
    pub fn consume(&self, ports: &Vec<Port>) -> (signals: Vec<i32>)
        requires
            self.wf(),
        ensures
            signals@.len() == ports@.len(),
            forall|i: int| 0 <= i < ports@.len() ==> signals@[i] == self@.port_input(ports@[i]),
    {
        let mut signals: Vec<i32> = Vec::new();
        let mut i: usize = 0;
        while i < ports.len()
            invariant
                i <= ports.len(),
                self.wf(),
                signals@.len() == i,
                forall|k: int| 0 <= k < i ==> signals@[k] == self@.port_input(ports@[k]),
            decreases ports.len() - i,
        {
            signals.push(self.logic_graph.port_input(ports[i]));
            i += 1;
        }
        signals
    }
}

/// What a block of the kind `block_name` writes when the output event `event` comes for it:
/// the directions of its output ports and the signal. Nothing if the block at that place is
/// of another kind or of no registered kind, if it holds no signal, or if no logic block is
/// registered under the name.
pub open spec fn spec_default_writes(
    block_name: Seq<char>,
    event: &LogicOutputEvent,
    signal: Option<i32>,
    logic_blocks: &Registry<LogicBlock>,
    blocks: &Registry<Block>,
    structure: &Structure,
) -> Option<(Seq<BlockDirection>, i32)> {
    match (
        blocks.spec_get(structure.base().spec_block_id_at(event.block.spec_coords())),
        signal,
        logic_blocks.spec_from_id(block_name),
    ) {
        (Some(block), Some(value), Some(logic_block)) => if block.spec_unlocalized_name()
            == block_name {
            Some(
                (
                    logic_block.spec_directions_with(
                        Some(LogicConnection::Port(PortType::Output)),
                        structure.base().spec_block_rotation(event.block.spec_coords()),
                    ),
                    value,
                ),
            )
        } else {
            None
        },
        _ => None,
    }
}

/// Whether `requests` are the input events asked for when the block at `coords` writes
/// `signal` to its output ports along `directions`, one after the other, starting from the
/// graph `before`: for each write, one request for the block of each input port that reads
/// something new because of it.
pub open spec fn spec_asked_by_writes(
    before: LogicGraphView,
    coords: BlockCoordinate,
    directions: Seq<BlockDirection>,
    signal: i32,
    entity: u64,
    requests: Seq<QueueLogicInputEvent>,
) -> bool {
    exists|consumers: Seq<Seq<Port>>|
        #![trigger consumers.flatten_alt()]
        {
            &&& requests == spec_input_requests(consumers.flatten_alt(), entity)
            &&& consumers.len() == directions.len()
            &&& forall|k: int|
                0 <= k < consumers.len() ==> (#[trigger] consumers[k]).no_duplicates()
                    && consumers[k].to_set() == before.produced_along(
                    coords,
                    directions.take(k),
                    signal,
                ).readers_of_write(Port { coords, direction: directions[k] }, signal)
        }
}

/// What many logic blocks do when their output changes: the block pushes the signal it
/// holds to all its output ports. `event` names the block and `signal` is the signal it
/// holds; `block_name` is the kind of block that this handler is for. Nothing happens if
/// the block at that place is of another kind, holds no signal, or has no logic block
/// registered. Returns the input events that are asked for.
pub fn default_logic_block_output(
    block_name: &str,
    event: &LogicOutputEvent,
    signal: Option<i32>,
    logic_blocks: &Registry<LogicBlock>,
    blocks: &Registry<Block>,
    logic_driver: &mut LogicDriver,
    structure: &Structure,
) -> (requests: Vec<QueueLogicInputEvent>)
    requires
        structure.wf(),
        old(logic_driver).wf(),
    ensures
        final(logic_driver).wf(),
        match spec_default_writes(block_name@, event, signal, logic_blocks, blocks, structure) {
            Some((directions, value)) => {
                &&& final(logic_driver)@ == old(logic_driver)@.produced_along(
                    event.block.spec_coords(),
                    directions,
                    value,
                )
                &&& spec_asked_by_writes(
                    old(logic_driver)@,
                    event.block.spec_coords(),
                    directions,
                    value,
                    event.entity,
                    requests@,
                )
            },
            None => final(logic_driver)@ == old(logic_driver)@ && requests@.len() == 0,
        },
{
    let coords = event.block.coords();
    let mut requests: Vec<QueueLogicInputEvent> = Vec::new();
    let block = match blocks.get(structure.block_id_at(coords)) {
        Some(block) => block,
        None => {
            return requests;
        },
    };
    let named = match logic_blocks.from_id(block_name) {
        Some(logic_block) => logic_block,
        None => {
            return requests;
        },
    };
    let value = match signal {
        Some(value) => value,
        None => {
            return requests;
        },
    };
    if !block.is_named(&block_name.to_owned()) {
        return requests;
    }
    let rotation = structure.block_rotation(coords);
    let faces = named.output_faces();
    let ghost directions = faces@.map_values(|face: BlockFace| rotation.spec_direction_of(face));
    let ghost mut consumers: Seq<Seq<Port>> = Seq::empty();
    let mut i: usize = 0;
    proof {
        assert(directions.take(0) =~= Seq::<BlockDirection>::empty());
        assert(requests@ =~= spec_input_requests(consumers.flatten_alt(), event.entity));
    }
    while i < faces.len()
        invariant
            i <= faces.len(),
            logic_driver.wf(),
            directions == faces@.map_values(|face: BlockFace| rotation.spec_direction_of(face)),
            logic_driver@ == old(logic_driver)@.produced_along(
                coords,
                directions.take(i as int),
                value,
            ),
            requests@ == spec_input_requests(consumers.flatten_alt(), event.entity),
            consumers.len() == i,
            forall|k: int|
                0 <= k < consumers.len() ==> (#[trigger] consumers[k]).no_duplicates()
                    && consumers[k].to_set() == old(logic_driver)@.produced_along(
                    coords,
                    directions.take(k),
                    value,
                ).readers_of_write(Port { coords, direction: directions[k] }, value),
        decreases faces.len() - i,
    {
        let port = Port::new(coords, rotation.direction_of(faces[i]));
        let ghost view = logic_driver@;
        let mut asked = logic_driver.update_producer(port, value, event.entity);
        let ghost asked_now = asked@;
        requests.append(&mut asked);
        proof {
            let longer = directions.take(i + 1);
            assert(longer.drop_last() =~= directions.take(i as int));
            assert(longer.last() == port.direction);
            let readers = choose|readers: Seq<Port>|
                #![trigger spec_input_requests(readers, event.entity)]
                {
                    &&& asked_now == spec_input_requests(readers, event.entity)
                    &&& readers.no_duplicates()
                    &&& readers.to_set() == view.readers_of_write(port, value)
                };
            let more = consumers.push(readers);
            assert(more.drop_last() =~= consumers);
            assert(more.flatten_alt() == consumers.flatten_alt() + readers);
            assert(requests@ =~= spec_input_requests(more.flatten_alt(), event.entity));
            assert forall|k: int| 0 <= k < more.len() implies (#[trigger] more[k]).no_duplicates()
                && more[k].to_set() == old(logic_driver)@.produced_along(
                coords,
                directions.take(k),
                value,
            ).readers_of_write(Port { coords, direction: directions[k] }, value) by {
                if k < i {
                    assert(more[k] == consumers[k]);
                }
            }
            consumers = more;
        }
        i += 1;
    }
    proof {
        assert(directions.take(faces@.len() as int) =~= directions);
    }
    requests
}

impl LogicGraphView {
    /// The graph after the block at `coords` has written `signal` to the groups of its
    /// output ports that point along `directions`, one after the other.
    pub open spec fn produced_along(
        self,
        coords: BlockCoordinate,
        directions: Seq<BlockDirection>,
        signal: i32,
    ) -> LogicGraphView
        decreases directions.len(),
    {
        if directions.len() == 0 {
            self
        } else {
            self.produced_along(coords, directions.drop_last(), signal).produced(
                Port { coords, direction: directions.last() },
                signal,
            )
        }
    }
}

} // verus!
