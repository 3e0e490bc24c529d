use cosmos_core::block::block_direction::BlockDirection;
use cosmos_core::block::block_face::BlockFace;
use cosmos_core::block::Block;
use cosmos_core::logic::collections::{PortIndex, PortSet};
use cosmos_core::logic::events::{
    logic_system_sets, logic_tick_millis, queue_logic_consumers, queue_logic_producers,
    send_queued_logic_events, LogicInputEvent, LogicInputEventQueue, LogicOutputEvent,
    LogicOutputEventQueue, LogicSystemSet, QueueLogicInputEvent, QueueLogicOutputEvent,
};
use cosmos_core::logic::logic_driver::{default_logic_block_output, LogicDriver};
use cosmos_core::logic::logic_graph::{LogicGraph, LogicGroup};
use cosmos_core::logic::world::connection_at;
use cosmos_core::logic::{
    BlockLogicData, LogicBlock, LogicConnection, Port, PortType, LOGIC_BIT, LOGIC_TICKS_PER_SECOND,
};
use cosmos_core::registry::{Identifiable, Registry};
use cosmos_core::structure::coordinates::{BlockCoordinate, ChunkCoordinate};
use cosmos_core::structure::full_structure::FullStructure;
use cosmos_core::structure::structure_block::StructureBlock;
use cosmos_core::structure::Structure;

fn port(x: u64, y: u64, z: u64, direction: BlockDirection) -> Port {
    Port::new(BlockCoordinate::new(x, y, z), direction)
}

fn registries() -> (Registry<Block>, Registry<LogicBlock>) {
    let mut blocks: Registry<Block> = Registry::new();
    for name in ["cosmos:air", "cosmos:logic_wire", "cosmos:and_gate", "cosmos:logic_on", "cosmos:light"] {
        blocks.register(Block::new(name.to_owned()));
    }
    let mut logic_blocks: Registry<LogicBlock> = Registry::new();
    let wire = Some(LogicConnection::Wire);
    let input = Some(LogicConnection::Port(PortType::Input));
    let output = Some(LogicConnection::Port(PortType::Output));
    logic_blocks.register(LogicBlock::new(blocks.from_id("cosmos:logic_wire").unwrap(), [wire; 6], 0));
    logic_blocks.register(LogicBlock::new(
        blocks.from_id("cosmos:and_gate").unwrap(),
        [input, input, None, None, output, None],
        0,
    ));
    logic_blocks.register(LogicBlock::new(blocks.from_id("cosmos:logic_on").unwrap(), [output; 6], 1));
    logic_blocks.register(LogicBlock::new(blocks.from_id("cosmos:light").unwrap(), [input; 6], 0));
    (blocks, logic_blocks)
}

fn structure() -> Structure {
    Structure::Full(FullStructure::new(ChunkCoordinate::new(1, 1, 1)))
}

#[test]
fn logic_block_lists_its_faces_by_role() {
    let (blocks, logic_blocks) = registries();
    let gate = logic_blocks.for_block(blocks.from_id("cosmos:and_gate").unwrap()).unwrap();
    assert_eq!(gate.id(), 1);
    assert_eq!(gate.unlocalized_name(), "cosmos:and_gate");
    assert_eq!(gate.initial_signal(), 0);
    assert_eq!(gate.connection_on(BlockFace::Right), Some(LogicConnection::Port(PortType::Input)));
    assert_eq!(gate.connection_on(BlockFace::Left), Some(LogicConnection::Port(PortType::Input)));
    assert_eq!(gate.connection_on(BlockFace::Top), None);
    assert_eq!(gate.connection_on(BlockFace::Front), Some(LogicConnection::Port(PortType::Output)));
    assert_eq!(gate.faces(), vec![BlockFace::Right, BlockFace::Left, BlockFace::Front]);
    assert_eq!(gate.input_faces(), vec![BlockFace::Right, BlockFace::Left]);
    assert_eq!(gate.output_faces(), vec![BlockFace::Front]);
    assert_eq!(gate.wire_faces(), Vec::<BlockFace>::new());
    assert_eq!(gate.non_logic_faces(), vec![BlockFace::Top, BlockFace::Bottom, BlockFace::Back]);
    assert_eq!(gate.faces_with(None), gate.non_logic_faces());
    let wire = logic_blocks.for_block(blocks.from_id("cosmos:logic_wire").unwrap()).unwrap();
    assert_eq!(wire.wire_faces().len(), 6);
    assert_eq!(wire.faces_with(Some(LogicConnection::Wire)), wire.faces());
    assert!(logic_blocks.for_block(blocks.from_id("cosmos:air").unwrap()).is_none());
    let on = logic_blocks.for_block(blocks.from_id("cosmos:logic_on").unwrap()).unwrap();
    assert_eq!(on.initial_signal(), 1);
}

#[test]
fn block_logic_data_is_on_unless_zero() {
    assert!(!BlockLogicData(0).on());
    assert!(BlockLogicData(1).on());
    assert!(BlockLogicData(-3).on());
    assert_eq!(LOGIC_BIT, 7);
    assert_eq!(LOGIC_TICKS_PER_SECOND, 20);
    assert_eq!(logic_tick_millis(), 50);
}

#[test]
fn ports_face_their_neighbors() {
    let dimensions = BlockCoordinate::new(32, 32, 32);
    let p = port(3, 4, 5, BlockDirection::PosZ);
    assert_eq!(p.facing(dimensions), Some(port(3, 4, 6, BlockDirection::NegZ)));
    assert_eq!(port(0, 4, 5, BlockDirection::NegX).facing(dimensions), None);
    assert_eq!(port(31, 4, 5, BlockDirection::PosX).facing(dimensions), None);
    assert_eq!(p.key(), (3, 4, 5, 4));
    let all = Port::all_for(BlockCoordinate::new(3, 4, 5));
    for direction in cosmos_core::block::block_direction::all_block_directions() {
        assert!(all.contains(port(3, 4, 5, direction)));
        assert!(!all.contains(port(3, 4, 6, direction)));
    }
}

#[test]
fn port_index_remembers_what_it_is_told() {
    let mut index = PortIndex::new();
    let a = port(1, 2, 3, BlockDirection::PosX);
    let b = port(1, 2, 3, BlockDirection::NegX);
    assert_eq!(index.get(a), None);
    index.insert(a, 7);
    index.insert(b, 9);
    assert_eq!(index.get(a), Some(7));
    assert_eq!(index.get(b), Some(9));
    index.insert(a, 8);
    assert_eq!(index.get(a), Some(8));
    assert_eq!(index.remove(a), Some(8));
    assert_eq!(index.remove(a), None);
    assert_eq!(index.get(a), None);
    assert_eq!(index.get(b), Some(9));
}

#[test]
fn port_set_holds_what_was_inserted() {
    let mut set = PortSet::new();
    let a = port(1, 2, 3, BlockDirection::PosY);
    let b = port(1, 2, 4, BlockDirection::PosY);
    assert!(!set.contains(a));
    assert!(set.insert(a));
    assert!(!set.insert(a));
    assert!(set.contains(a));
    assert!(!set.contains(b));
    assert!(!set.contains(port(1, 2, 3, BlockDirection::NegY)));
}

#[test]
fn new_group_has_what_it_was_given() {
    let group = LogicGroup::new(3, Some(BlockCoordinate::new(1, 1, 1)));
    assert_eq!(group.signal(), 3);
    assert!(group.on());
    assert_eq!(group.recent_wire_coords(), Some(BlockCoordinate::new(1, 1, 1)));
    assert!(group.consumers().is_empty());
    assert!(group.producers().is_empty());
    assert!(group.ports(PortType::Input).is_empty());
    assert!(!LogicGroup::new(0, None).on());
}

#[test]
fn graph_places_and_removes_single_ports() {
    let (blocks, logic_blocks) = registries();
    let structure = structure();
    let mut graph = LogicGraph::new();
    assert_eq!(graph.group_count(), 0);
    assert_eq!(graph.next_group_id(), 0);
    let c = BlockCoordinate::new(1, 1, 1);
    graph.neighbor_port(c, BlockDirection::PosX, PortType::Input, &structure, &blocks, &logic_blocks);
    graph.neighbor_port(c, BlockDirection::NegX, PortType::Output, &structure, &blocks, &logic_blocks);
    assert_eq!(graph.group_of(port(1, 1, 1, BlockDirection::PosX), PortType::Input), Some(0));
    assert_eq!(graph.group_of(port(1, 1, 1, BlockDirection::PosX), PortType::Output), None);
    assert_eq!(graph.group_of(port(1, 1, 1, BlockDirection::NegX), PortType::Output), Some(1));
    assert_eq!(graph.next_group_id(), 2);
    let mut ids = graph.group_ids();
    ids.sort();
    assert_eq!(ids, vec![0, 1]);
    assert_eq!(graph.group(0).unwrap().consumers(), &vec![port(1, 1, 1, BlockDirection::PosX)]);
    assert!(graph.group(2).is_none());
    assert_eq!(graph.port_input(port(1, 1, 1, BlockDirection::PosX)), 0);
    // Placing a port again leaves it in one group only.
    graph.neighbor_port(c, BlockDirection::PosX, PortType::Input, &structure, &blocks, &logic_blocks);
    assert_eq!(graph.group_count(), 2);
    assert_eq!(graph.group_of(port(1, 1, 1, BlockDirection::PosX), PortType::Input), Some(2));
    graph.remove_port(c, BlockDirection::PosX, PortType::Input);
    assert_eq!(graph.group_of(port(1, 1, 1, BlockDirection::PosX), PortType::Input), None);
    assert_eq!(graph.group_count(), 1);
    graph.remove_port(c, BlockDirection::PosX, PortType::Input);
    assert_eq!(graph.group_count(), 1);
    graph.remove_port(c, BlockDirection::NegX, PortType::Output);
    assert_eq!(graph.group_count(), 0);
    assert_eq!(graph.next_group_id(), 3);
}

#[test]
fn search_follows_wires_to_a_group() {
    let (blocks, logic_blocks) = registries();
    let mut structure = structure();
    let mut driver = LogicDriver::new();
    let wire = blocks.from_id("cosmos:logic_wire").unwrap();
    let light = blocks.from_id("cosmos:light").unwrap();
    for (block, x, y, z) in [(light, 1, 1, 1), (wire, 2, 1, 1), (wire, 3, 1, 1), (wire, 3, 2, 1)] {
        let event = structure.set_block_at(BlockCoordinate::new(x, y, z), block, BlockFace::Top).unwrap();
        driver.block_changed(&event, 7, &structure, &blocks, &logic_blocks);
    }
    let graph = driver.logic_graph();
    let group = graph.group_of(port(1, 1, 1, BlockDirection::PosX), PortType::Input).unwrap();
    // From beside the far end of the wires, the search comes to the group.
    let mut visited = Port::all_for(BlockCoordinate::new(3, 3, 1));
    assert_eq!(
        graph.find_group(BlockCoordinate::new(3, 2, 1), BlockDirection::PosY, &structure, &mut visited, &blocks, &logic_blocks),
        Some(group)
    );
    // A port tells its own group.
    let mut visited = PortSet::new();
    assert_eq!(
        graph.find_group(BlockCoordinate::new(1, 1, 1), BlockDirection::PosY, &structure, &mut visited, &blocks, &logic_blocks),
        graph.group_of(port(1, 1, 1, BlockDirection::PosY), PortType::Input)
    );
    // Air has no group, and neither has what is blocked.
    let mut visited = PortSet::new();
    assert_eq!(
        graph.find_group(BlockCoordinate::new(5, 5, 5), BlockDirection::PosY, &structure, &mut visited, &blocks, &logic_blocks),
        None
    );
    let mut visited = Port::all_for(BlockCoordinate::new(1, 1, 1));
    assert_eq!(
        graph.find_group(BlockCoordinate::new(1, 1, 1), BlockDirection::PosY, &structure, &mut visited, &blocks, &logic_blocks),
        None
    );
    let wire_block = logic_blocks.for_block(wire).unwrap();
    assert_eq!(
        graph.find_group_all_faces(wire_block, BlockFace::Top, BlockCoordinate::new(4, 1, 1), &structure, &blocks, &logic_blocks),
        Some(group)
    );
    assert_eq!(
        graph.find_group_all_faces(wire_block, BlockFace::Top, BlockCoordinate::new(9, 9, 9), &structure, &blocks, &logic_blocks),
        None
    );
    assert_eq!(
        connection_at(&structure, &blocks, &logic_blocks, port(2, 1, 1, BlockDirection::NegX)),
        Some(LogicConnection::Wire)
    );
    assert_eq!(
        connection_at(&structure, &blocks, &logic_blocks, port(1, 1, 1, BlockDirection::NegX)),
        Some(LogicConnection::Port(PortType::Input))
    );
    assert_eq!(connection_at(&structure, &blocks, &logic_blocks, port(5, 1, 1, BlockDirection::NegX)), None);
    assert_eq!(connection_at(&structure, &blocks, &logic_blocks, port(40, 1, 1, BlockDirection::NegX)), None);
}

#[test]
fn rename_group_collects_loose_ports_once() {
    let (blocks, logic_blocks) = registries();
    let mut structure = structure();
    let wire = blocks.from_id("cosmos:logic_wire").unwrap();
    let light = blocks.from_id("cosmos:light").unwrap();
    // The blocks are in the structure, but the graph has not been told of them.
    for (block, x) in [(light, 1), (wire, 2), (wire, 3), (light, 4)] {
        structure.set_block_at(BlockCoordinate::new(x, 1, 1), block, BlockFace::Top).unwrap();
    }
    let mut graph = LogicGraph::new();
    let mut visited = PortSet::new();
    let created = graph.rename_group(
        5,
        BlockCoordinate::new(2, 1, 1),
        BlockDirection::PosY,
        &structure,
        &mut visited,
        &blocks,
        &logic_blocks,
    );
    assert_eq!(created, Some(0));
    assert_eq!(graph.group_signal(0), 5);
    assert_eq!(graph.group_with_wire(BlockCoordinate::new(2, 1, 1)), Some(0));
    let mut inputs = graph.ports_of_group(0, PortType::Input);
    inputs.sort_by_key(|p| p.coords.x);
    assert_eq!(inputs, vec![port(1, 1, 1, BlockDirection::PosX), port(4, 1, 1, BlockDirection::NegX)]);
    assert!(visited.contains(port(3, 1, 1, BlockDirection::NegZ)));
    assert!(!visited.contains(port(4, 1, 1, BlockDirection::NegX)));
    // A second search from the other wire has nowhere to go and makes no group.
    let created = graph.rename_group(
        5,
        BlockCoordinate::new(3, 1, 1),
        BlockDirection::PosY,
        &structure,
        &mut visited,
        &blocks,
        &logic_blocks,
    );
    assert_eq!(created, None);
    assert_eq!(graph.group_count(), 1);
    assert_eq!(graph.next_group_id(), 1);
}

#[test]
fn queues_keep_their_order() {
    let mut inputs = LogicInputEventQueue::new();
    let mut outputs = LogicOutputEventQueue::new();
    let block = |x| StructureBlock::new(x, 0, 0);
    queue_logic_consumers(
        &vec![QueueLogicInputEvent::new(block(1), 10), QueueLogicInputEvent::new(block(2), 10)],
        &mut inputs,
    );
    queue_logic_producers(&vec![QueueLogicOutputEvent::new(block(3), 11)], &mut outputs);
    queue_logic_consumers(&vec![QueueLogicInputEvent::new(block(4), 12)], &mut inputs);
    queue_logic_producers(&vec![], &mut outputs);
    assert_eq!(inputs.len(), 3);
    assert_eq!(outputs.len(), 1);
    let (sent_inputs, sent_outputs) = send_queued_logic_events(&mut outputs, &mut inputs);
    assert_eq!(
        sent_inputs,
        vec![
            LogicInputEvent { block: block(1), entity: 10 },
            LogicInputEvent { block: block(2), entity: 10 },
            LogicInputEvent { block: block(4), entity: 12 },
        ]
    );
    assert_eq!(sent_outputs, vec![LogicOutputEvent { block: block(3), entity: 11 }]);
    assert_eq!(inputs.len(), 0);
    assert_eq!(outputs.len(), 0);
    let (sent_inputs, sent_outputs) = send_queued_logic_events(&mut outputs, &mut inputs);
    assert!(sent_inputs.is_empty());
    assert!(sent_outputs.is_empty());
}

#[test]
fn a_pass_runs_its_parts_in_order() {
    assert_eq!(
        logic_system_sets(false),
        vec![
            LogicSystemSet::EditLogicGraph,
            LogicSystemSet::QueueConsumers,
            LogicSystemSet::QueueProducers
        ]
    );
    assert_eq!(
        logic_system_sets(true),
        vec![
            LogicSystemSet::EditLogicGraph,
            LogicSystemSet::QueueConsumers,
            LogicSystemSet::QueueProducers,
            LogicSystemSet::SendQueues,
            LogicSystemSet::Consume,
            LogicSystemSet::Produce
        ]
    );
    assert!(LogicSystemSet::Consume.order() < LogicSystemSet::Produce.order());
    assert!(LogicSystemSet::EditLogicGraph.order() < LogicSystemSet::Consume.order());
    assert!(!LogicSystemSet::QueueProducers.on_tick_only());
    assert!(LogicSystemSet::SendQueues.on_tick_only());
    assert!(LogicSystemSet::Consume.on_tick_only());
    assert!(LogicSystemSet::Produce.on_tick_only());
}

#[test]
fn default_output_pushes_the_signal_to_all_output_ports() {
    let (blocks, logic_blocks) = registries();
    let mut structure = structure();
    let mut driver = LogicDriver::new();
    let on = blocks.from_id("cosmos:logic_on").unwrap();
    let light = blocks.from_id("cosmos:light").unwrap();
    for (block, x, y, z) in [(on, 1, 1, 1), (light, 2, 1, 1), (light, 1, 2, 1)] {
        let event = structure.set_block_at(BlockCoordinate::new(x, y, z), block, BlockFace::Top).unwrap();
        driver.block_changed(&event, 7, &structure, &blocks, &logic_blocks);
    }
    let event = LogicOutputEvent { block: StructureBlock::new(1, 1, 1), entity: 4 };
    // Another kind of block, or no signal, writes nothing.
    assert!(default_logic_block_output("cosmos:light", &event, Some(1), &logic_blocks, &blocks, &mut driver, &structure).is_empty());
    assert!(default_logic_block_output("cosmos:logic_on", &event, None, &logic_blocks, &blocks, &mut driver, &structure).is_empty());
    assert_eq!(driver.consume(&vec![port(2, 1, 1, BlockDirection::NegX)]), vec![0]);
    let requests =
        default_logic_block_output("cosmos:logic_on", &event, Some(1), &logic_blocks, &blocks, &mut driver, &structure);
    let mut asked: Vec<(u64, u64, u64)> =
        requests.iter().map(|r| (r.0.block.x(), r.0.block.y(), r.0.block.z())).collect();
    asked.sort();
    assert_eq!(asked, vec![(1, 2, 1), (2, 1, 1)]);
    assert!(requests.iter().all(|r| r.0.entity == 4));
    assert_eq!(
        driver.consume(&vec![port(2, 1, 1, BlockDirection::NegX), port(1, 2, 1, BlockDirection::NegY), port(2, 1, 1, BlockDirection::PosX)]),
        vec![1, 1, 0]
    );
    assert!(driver.has_room_for(19));
    assert!(!driver.has_room_for(usize::MAX));
}
