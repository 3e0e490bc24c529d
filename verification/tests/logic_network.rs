use cosmos_core::block::block_direction::BlockDirection;
use cosmos_core::block::block_face::BlockFace;
use cosmos_core::block::specific_blocks::and_gate::{
    and_gate_connections, and_gate_name, and_gate_signal,
};
use cosmos_core::block::Block;
use cosmos_core::logic::events::{QueueLogicInputEvent, QueueLogicOutputEvent};
use cosmos_core::logic::logic_driver::{LogicBlockChange, LogicDriver};
use cosmos_core::logic::{LogicBlock, LogicConnection, Port, PortType};
use cosmos_core::registry::Registry;
use cosmos_core::structure::coordinates::{BlockCoordinate, ChunkCoordinate};
use cosmos_core::structure::full_structure::FullStructure;
use cosmos_core::structure::structure_block::StructureBlock;
use cosmos_core::structure::Structure;

const WIRE: &str = "cosmos:logic_wire";
const AND_GATE: &str = "cosmos:and_gate";
const LOGIC_ON: &str = "cosmos:logic_on";
const LIGHT: &str = "cosmos:light";

struct World {
    structure: Structure,
    blocks: Registry<Block>,
    logic_blocks: Registry<LogicBlock>,
    driver: LogicDriver,
}

fn world() -> World {
    let mut blocks: Registry<Block> = Registry::new();
    for name in ["cosmos:air", WIRE, AND_GATE, LOGIC_ON, LIGHT, "cosmos:stone"] {
        blocks.register(Block::new(name.to_owned()));
    }
    let mut logic_blocks: Registry<LogicBlock> = Registry::new();
    let wire = Some(LogicConnection::Wire);
    let input = Some(LogicConnection::Port(PortType::Input));
    let output = Some(LogicConnection::Port(PortType::Output));
    logic_blocks.register(LogicBlock::new(blocks.from_id(WIRE).unwrap(), [wire; 6], 0));
    // Right and left are inputs, the front is the output.
    logic_blocks.register(LogicBlock::new(
        blocks.from_id(AND_GATE).unwrap(),
        [input, input, None, None, output, None],
        0,
    ));
    logic_blocks.register(LogicBlock::new(blocks.from_id(LOGIC_ON).unwrap(), [output; 6], 1));
    logic_blocks.register(LogicBlock::new(blocks.from_id(LIGHT).unwrap(), [input; 6], 0));
    World {
        structure: Structure::Full(FullStructure::new(ChunkCoordinate::new(1, 1, 1))),
        blocks,
        logic_blocks,
        driver: LogicDriver::new(),
    }
}

fn place(w: &mut World, name: &str, x: u64, y: u64, z: u64) {
    let block = w.blocks.from_id(name).unwrap();
    let event = w
        .structure
        .set_block_at(BlockCoordinate::new(x, y, z), block, BlockFace::Top)
        .unwrap();
    w.driver.block_changed(&event, 7, &w.structure, &w.blocks, &w.logic_blocks);
}

fn remove(w: &mut World, x: u64, y: u64, z: u64) {
    let event = w.structure.remove_block_at(BlockCoordinate::new(x, y, z)).unwrap();
    w.driver.block_changed(&event, 7, &w.structure, &w.blocks, &w.logic_blocks);
}

fn port(x: u64, y: u64, z: u64, direction: BlockDirection) -> Port {
    Port::new(BlockCoordinate::new(x, y, z), direction)
}

fn gate_signal_at(w: &World, x: u64, y: u64, z: u64) -> i32 {
    let coords = BlockCoordinate::new(x, y, z);
    let rotation = w.structure.block_rotation(coords);
    let left = w.driver.global_port_input(coords, rotation, BlockFace::Left);
    let right = w.driver.global_port_input(coords, rotation, BlockFace::Right);
    and_gate_signal(left, right).0
}

#[test]
fn wire_chain_and_gate_input_share_one_group() {
    let mut w = world();
    place(&mut w, WIRE, 0, 0, 0);
    place(&mut w, WIRE, 1, 0, 0);
    place(&mut w, AND_GATE, 2, 0, 0);
    let graph = w.driver.logic_graph();
    let left = port(2, 0, 0, BlockDirection::NegX);
    let group = graph.group_of(left, PortType::Input).expect("the left input is in a group");
    // The group is the one the wires are in: the latest wire stands for it.
    assert_eq!(graph.group_with_wire(BlockCoordinate::new(1, 0, 0)), Some(group));
    assert_eq!(graph.ports_of_group(group, PortType::Input), vec![left]);
    assert_eq!(graph.ports_of_group(group, PortType::Output), Vec::<Port>::new());
    // The right input and the output face nothing and have groups of their own.
    let right = graph.group_of(port(2, 0, 0, BlockDirection::PosX), PortType::Input).unwrap();
    let front = graph.group_of(port(2, 0, 0, BlockDirection::PosZ), PortType::Output).unwrap();
    assert_ne!(right, group);
    assert_ne!(front, group);
    assert_ne!(right, front);
    assert_eq!(graph.group_count(), 3);
    // Both inputs are off, so the output of the AND block is off.
    assert_eq!(w.driver.global_port_input(BlockCoordinate::new(2, 0, 0), BlockFace::Top, BlockFace::Left), 0);
    assert_eq!(w.driver.global_port_input(BlockCoordinate::new(2, 0, 0), BlockFace::Top, BlockFace::Right), 0);
    assert_eq!(gate_signal_at(&w, 2, 0, 0), 0);
}

fn single_wire_group_with_signal(w: &mut World, x: u64, signal: i32) -> usize {
    place(w, WIRE, x, 0, 0);
    place(w, LOGIC_ON, x, 1, 0);
    w.driver.update_producer(port(x, 1, 0, BlockDirection::NegY), signal, 7);
    remove(w, x, 1, 0);
    w.driver.logic_graph().group_with_wire(BlockCoordinate::new(x, 0, 0)).unwrap()
}

#[test]
fn connecting_wire_merges_groups_and_ors_signals() {
    let mut w = world();
    let g1 = single_wire_group_with_signal(&mut w, 0, 1);
    let g2 = single_wire_group_with_signal(&mut w, 2, 0);
    assert_ne!(g1, g2);
    assert_eq!(w.driver.logic_graph().group_signal(g1), 1);
    assert_eq!(w.driver.logic_graph().group_signal(g2), 0);
    assert_eq!(w.driver.logic_graph().group_count(), 2);
    place(&mut w, WIRE, 1, 0, 0);
    let graph = w.driver.logic_graph();
    assert_eq!(graph.group_count(), 1);
    let merged = graph.group_with_wire(BlockCoordinate::new(1, 0, 0)).unwrap();
    assert_ne!(merged, g1);
    assert_ne!(merged, g2);
    assert!(graph.group(g1).is_none());
    assert!(graph.group(g2).is_none());
    assert_eq!(graph.group_signal(merged), 1);
}

#[test]
fn removing_the_middle_wire_leaves_no_group() {
    let mut w = world();
    place(&mut w, WIRE, 0, 0, 0);
    place(&mut w, WIRE, 1, 0, 0);
    place(&mut w, WIRE, 2, 0, 0);
    assert_eq!(w.driver.logic_graph().group_count(), 1);
    remove(&mut w, 1, 0, 0);
    // Neither of the two wires that are left carries a port, so no group is made.
    let graph = w.driver.logic_graph();
    assert_eq!(graph.group_count(), 0);
    assert_eq!(graph.group_with_wire(BlockCoordinate::new(0, 0, 0)), None);
    assert_eq!(graph.group_with_wire(BlockCoordinate::new(2, 0, 0)), None);
}

#[test]
fn merge_keeps_every_port_of_both_networks() {
    let mut w = world();
    // Network A: a light at x = 0 and an on-block above the wire at x = 1.
    place(&mut w, LIGHT, 0, 0, 0);
    place(&mut w, WIRE, 1, 0, 0);
    place(&mut w, LOGIC_ON, 1, 1, 0);
    // Network B: a wire at x = 3 with a light at x = 4.
    place(&mut w, WIRE, 3, 0, 0);
    place(&mut w, LIGHT, 4, 0, 0);
    let a = w.driver.logic_graph().group_with_wire(BlockCoordinate::new(1, 0, 0)).unwrap();
    let b = w.driver.logic_graph().group_with_wire(BlockCoordinate::new(3, 0, 0)).unwrap();
    w.driver.update_producer(port(1, 1, 0, BlockDirection::NegY), 1, 7);
    assert_eq!(w.driver.logic_graph().group_signal(a), 1);
    assert_eq!(w.driver.logic_graph().group_signal(b), 0);
    let a_ports = w.driver.logic_graph().ports_of_group(a, PortType::Input).len()
        + w.driver.logic_graph().ports_of_group(a, PortType::Output).len();
    let b_ports = w.driver.logic_graph().ports_of_group(b, PortType::Input).len()
        + w.driver.logic_graph().ports_of_group(b, PortType::Output).len();
    assert_eq!(a_ports, 2);
    assert_eq!(b_ports, 1);
    let groups_before = w.driver.logic_graph().group_count();
    place(&mut w, WIRE, 2, 0, 0);
    let graph = w.driver.logic_graph();
    let merged = graph.group_with_wire(BlockCoordinate::new(2, 0, 0)).unwrap();
    assert_eq!(graph.group_count(), groups_before - 1);
    let mut inputs = graph.ports_of_group(merged, PortType::Input);
    inputs.sort_by_key(|p| p.coords.x);
    assert_eq!(inputs, vec![port(0, 0, 0, BlockDirection::PosX), port(4, 0, 0, BlockDirection::NegX)]);
    assert_eq!(graph.ports_of_group(merged, PortType::Output), vec![port(1, 1, 0, BlockDirection::NegY)]);
    assert_eq!(inputs.len() + 1, a_ports + b_ports);
    assert_eq!(graph.group_signal(merged), 1);
    assert_eq!(graph.group_of(port(0, 0, 0, BlockDirection::PosX), PortType::Input), Some(merged));
    assert_eq!(graph.group_of(port(4, 0, 0, BlockDirection::NegX), PortType::Input), Some(merged));
}

#[test]
fn split_gives_each_side_its_own_group() {
    let mut w = world();
    place(&mut w, LIGHT, 0, 0, 0);
    place(&mut w, WIRE, 1, 0, 0);
    place(&mut w, WIRE, 2, 0, 0);
    place(&mut w, WIRE, 3, 0, 0);
    place(&mut w, LIGHT, 4, 0, 0);
    let west = port(0, 0, 0, BlockDirection::PosX);
    let east = port(4, 0, 0, BlockDirection::NegX);
    let whole = w.driver.logic_graph().group_of(west, PortType::Input).unwrap();
    assert_eq!(w.driver.logic_graph().group_of(east, PortType::Input), Some(whole));
    let groups_before = w.driver.logic_graph().group_count();
    remove(&mut w, 2, 0, 0);
    let graph = w.driver.logic_graph();
    let west_group = graph.group_of(west, PortType::Input).unwrap();
    let east_group = graph.group_of(east, PortType::Input).unwrap();
    assert_ne!(west_group, east_group);
    assert!(graph.group(whole).is_none());
    assert_eq!(graph.group_count(), groups_before + 1);
    assert_eq!(graph.ports_of_group(west_group, PortType::Input), vec![west]);
    assert_eq!(graph.ports_of_group(east_group, PortType::Input), vec![east]);
    assert_eq!(graph.group_with_wire(BlockCoordinate::new(1, 0, 0)), Some(west_group));
    assert_eq!(graph.group_with_wire(BlockCoordinate::new(3, 0, 0)), Some(east_group));
}

#[test]
fn split_groups_take_over_the_signal() {
    let mut w = world();
    place(&mut w, LOGIC_ON, 0, 0, 0);
    place(&mut w, WIRE, 1, 0, 0);
    place(&mut w, WIRE, 2, 0, 0);
    place(&mut w, LIGHT, 3, 0, 0);
    w.driver.update_producer(port(0, 0, 0, BlockDirection::PosX), 1, 7);
    remove(&mut w, 2, 0, 0);
    let graph = w.driver.logic_graph();
    let west = graph.group_of(port(0, 0, 0, BlockDirection::PosX), PortType::Output).unwrap();
    let east = graph.group_of(port(3, 0, 0, BlockDirection::NegX), PortType::Input).unwrap();
    assert_ne!(west, east);
    assert_eq!(graph.group_signal(west), 1);
    assert_eq!(graph.group_signal(east), 1);
}

fn membership(w: &World, ports: &[(Port, PortType)]) -> Vec<Vec<bool>> {
    let graph = w.driver.logic_graph();
    ports
        .iter()
        .map(|(p, t)| {
            ports
                .iter()
                .map(|(q, u)| {
                    let a = graph.group_of(*p, *t);
                    a.is_some() && a == graph.group_of(*q, *u)
                })
                .collect()
        })
        .collect()
}

#[test]
fn adding_and_removing_a_gate_restores_the_groups() {
    let mut w = world();
    place(&mut w, LIGHT, 0, 0, 0);
    place(&mut w, WIRE, 1, 0, 0);
    place(&mut w, LOGIC_ON, 3, 0, 0);
    let watched = [
        (port(0, 0, 0, BlockDirection::PosX), PortType::Input),
        (port(0, 0, 0, BlockDirection::PosY), PortType::Input),
        (port(3, 0, 0, BlockDirection::NegX), PortType::Output),
        (port(3, 0, 0, BlockDirection::PosX), PortType::Output),
    ];
    let before = membership(&w, &watched);
    let count = w.driver.logic_graph().group_count();
    place(&mut w, AND_GATE, 2, 0, 0);
    assert!(w.driver.logic_graph().group_count() > count);
    remove(&mut w, 2, 0, 0);
    assert_eq!(membership(&w, &watched), before);
    assert_eq!(w.driver.logic_graph().group_count(), count);
    for direction in [BlockDirection::PosX, BlockDirection::NegX, BlockDirection::PosZ] {
        assert_eq!(w.driver.logic_graph().group_of(port(2, 0, 0, direction), PortType::Input), None);
        assert_eq!(w.driver.logic_graph().group_of(port(2, 0, 0, direction), PortType::Output), None);
    }
}

#[test]
fn adding_and_removing_a_wire_restores_the_groups() {
    let mut w = world();
    place(&mut w, LIGHT, 0, 0, 0);
    place(&mut w, WIRE, 1, 0, 0);
    place(&mut w, WIRE, 3, 0, 0);
    place(&mut w, LOGIC_ON, 4, 0, 0);
    let watched = [
        (port(0, 0, 0, BlockDirection::PosX), PortType::Input),
        (port(4, 0, 0, BlockDirection::NegX), PortType::Output),
        (port(4, 0, 0, BlockDirection::PosX), PortType::Output),
    ];
    let before = membership(&w, &watched);
    let count = w.driver.logic_graph().group_count();
    place(&mut w, WIRE, 2, 0, 0);
    assert_eq!(w.driver.logic_graph().group_count(), count - 1);
    remove(&mut w, 2, 0, 0);
    assert_eq!(membership(&w, &watched), before);
    assert_eq!(w.driver.logic_graph().group_count(), count);
}

#[test]
fn produced_signal_is_read_at_the_next_consume() {
    let mut w = world();
    place(&mut w, LOGIC_ON, 0, 0, 0);
    place(&mut w, WIRE, 1, 0, 0);
    place(&mut w, LIGHT, 2, 0, 0);
    let input = port(2, 0, 0, BlockDirection::NegX);
    let output = port(0, 0, 0, BlockDirection::PosX);
    // Tick N: consume comes first and reads what was produced a tick ago.
    let read_at_n = w.driver.consume(&vec![input]);
    assert_eq!(read_at_n, vec![0]);
    let requests = w.driver.update_producer(output, 5, 42);
    assert_eq!(requests.len(), 1);
    assert_eq!(requests[0].0.block.coords(), BlockCoordinate::new(2, 0, 0));
    assert_eq!(requests[0].0.entity, 42);
    // What tick N has read is what it has read.
    assert_eq!(read_at_n, vec![0]);
    // Tick N + 1 reads the new signal.
    assert_eq!(w.driver.consume(&vec![input]), vec![5]);
    assert_eq!(w.driver.global_port_input(BlockCoordinate::new(2, 0, 0), BlockFace::Top, BlockFace::Left), 5);
    // Writing the same signal again changes nothing and asks for nothing.
    assert!(w.driver.update_producer(output, 5, 42).is_empty());
}

#[test]
fn no_group_is_left_without_port_or_wire() {
    let mut w = world();
    let steps: [(&str, u64, u64, u64); 8] = [
        (WIRE, 1, 1, 1),
        (AND_GATE, 2, 1, 1),
        (LIGHT, 1, 2, 1),
        (WIRE, 1, 1, 2),
        (LOGIC_ON, 0, 1, 1),
        (WIRE, 3, 1, 1),
        (LIGHT, 3, 2, 1),
        (WIRE, 2, 1, 2),
    ];
    let check = |w: &World| {
        let graph = w.driver.logic_graph();
        for id in graph.group_ids() {
            let group = graph.group(id).unwrap();
            assert!(
                !group.consumers().is_empty()
                    || !group.producers().is_empty()
                    || group.recent_wire_coords().is_some()
            );
        }
    };
    for (name, x, y, z) in steps {
        place(&mut w, name, x, y, z);
        check(&w);
    }
    for (_, x, y, z) in [steps[0], steps[3], steps[1], steps[7], steps[4], steps[2], steps[5], steps[6]] {
        remove(&mut w, x, y, z);
        check(&w);
    }
    assert_eq!(w.driver.logic_graph().group_count(), 0);
}

#[test]
fn block_without_logic_is_invisible_to_the_graph() {
    let mut w = world();
    place(&mut w, WIRE, 0, 0, 0);
    let stone = w.blocks.from_id("cosmos:stone").unwrap();
    let event = w
        .structure
        .set_block_at(BlockCoordinate::new(1, 0, 0), stone, BlockFace::Top)
        .unwrap();
    let change = w.driver.block_changed(&event, 7, &w.structure, &w.blocks, &w.logic_blocks);
    assert_eq!(change, LogicBlockChange { data: None, queue_output: None, queue_input: None });
    assert_eq!(w.driver.logic_graph().group_count(), 1);
    place(&mut w, WIRE, 2, 0, 0);
    // The stone does not connect the two wires.
    assert_eq!(w.driver.logic_graph().group_count(), 2);
}

#[test]
fn placed_logic_block_starts_with_its_initial_signal() {
    let mut w = world();
    let on = w.blocks.from_id(LOGIC_ON).unwrap();
    let event = w
        .structure
        .set_block_at(BlockCoordinate::new(1, 1, 1), on, BlockFace::Top)
        .unwrap();
    let change = w.driver.block_changed(&event, 7, &w.structure, &w.blocks, &w.logic_blocks);
    let data = change.data.unwrap();
    assert_eq!(data.0, 1);
    assert!(data.on());
    // The block has output ports and no input port.
    assert_eq!(
        change.queue_output,
        Some(QueueLogicOutputEvent::new(StructureBlock::new(1, 1, 1), 7))
    );
    assert_eq!(change.queue_input, None);
    let gate = w.blocks.from_id(AND_GATE).unwrap();
    let event = w
        .structure
        .set_block_at(BlockCoordinate::new(5, 1, 1), gate, BlockFace::Top)
        .unwrap();
    let change = w.driver.block_changed(&event, 9, &w.structure, &w.blocks, &w.logic_blocks);
    assert_eq!(change.data, Some(and_gate_signal(0, 0)));
    assert_eq!(
        change.queue_output,
        Some(QueueLogicOutputEvent::new(StructureBlock::new(5, 1, 1), 9))
    );
    assert_eq!(
        change.queue_input,
        Some(QueueLogicInputEvent::new(StructureBlock::new(5, 1, 1), 9))
    );
    // Taking the block away leaves nothing to store and nothing to ask for.
    let event = w.structure.remove_block_at(BlockCoordinate::new(5, 1, 1)).unwrap();
    let change = w.driver.block_changed(&event, 9, &w.structure, &w.blocks, &w.logic_blocks);
    assert_eq!(change, LogicBlockChange { data: None, queue_output: None, queue_input: None });
}

#[test]
fn and_block_is_on_when_both_inputs_are() {
    assert_eq!(and_gate_signal(0, 0).0, 0);
    assert_eq!(and_gate_signal(1, 0).0, 0);
    assert_eq!(and_gate_signal(0, 1).0, 0);
    assert_eq!(and_gate_signal(1, 1).0, 1);
    assert_eq!(and_gate_signal(-4, 9).0, 1);
    assert_eq!(and_gate_name(), AND_GATE);
    let input = Some(LogicConnection::Port(PortType::Input));
    let output = Some(LogicConnection::Port(PortType::Output));
    assert_eq!(and_gate_connections(), [input, input, None, None, output, None]);
}

#[test]
fn removed_block_reads_as_turned_to_the_top() {
    let mut w = world();
    let stone = w.blocks.from_id("cosmos:stone").unwrap();
    let at = BlockCoordinate::new(3, 3, 3);
    let beside = BlockCoordinate::new(4, 3, 3);
    w.structure.set_block_at(at, stone, BlockFace::Left).unwrap();
    w.structure.set_block_at(beside, stone, BlockFace::Back).unwrap();
    assert_eq!(w.structure.block_rotation(at), BlockFace::Left);
    w.structure.remove_block_at(at).unwrap();
    assert!(!w.structure.has_block_at(at));
    assert_eq!(w.structure.block_rotation(at), BlockFace::Top);
    assert_eq!(w.structure.block_rotation(beside), BlockFace::Back);
}

#[test]
fn search_from_a_face_without_connection_marks_nothing() {
    let mut w = world();
    place(&mut w, WIRE, 1, 1, 1);
    let stone = w.blocks.from_id("cosmos:stone").unwrap();
    w.structure.set_block_at(BlockCoordinate::new(3, 1, 1), stone, BlockFace::Top).unwrap();
    let graph = w.driver.logic_graph();
    for (x, direction) in [(3, BlockDirection::NegX), (5, BlockDirection::PosY)] {
        let mut visited = Port::all_for(BlockCoordinate::new(9, 9, 9));
        let found = graph.find_group(
            BlockCoordinate::new(x, 1, 1),
            direction,
            &w.structure,
            &mut visited,
            &w.blocks,
            &w.logic_blocks,
        );
        assert_eq!(found, None);
        for cx in 0..8 {
            for d in [BlockDirection::PosX, BlockDirection::NegX, BlockDirection::PosY] {
                assert!(!visited.contains(port(cx, 1, 1, d)));
            }
        }
        assert!(visited.contains(port(9, 9, 9, BlockDirection::PosX)));
    }
}

#[test]
fn port_at_the_edge_of_the_structure_is_not_placed() {
    let mut w = world();
    place(&mut w, LIGHT, 0, 0, 0);
    let graph = w.driver.logic_graph();
    for direction in [BlockDirection::NegX, BlockDirection::NegY, BlockDirection::NegZ] {
        assert_eq!(graph.group_of(port(0, 0, 0, direction), PortType::Input), None);
    }
    for direction in [BlockDirection::PosX, BlockDirection::PosY, BlockDirection::PosZ] {
        assert!(graph.group_of(port(0, 0, 0, direction), PortType::Input).is_some());
    }
    assert_eq!(graph.group_count(), 3);
    place(&mut w, LIGHT, 31, 31, 31);
    assert_eq!(w.driver.logic_graph().group_count(), 6);
    assert_eq!(w.driver.logic_graph().group_of(port(31, 31, 31, BlockDirection::PosX), PortType::Input), None);
}

#[test]
fn rotated_gate_has_its_ports_where_its_faces_point() {
    let mut w = world();
    let gate = w.blocks.from_id(AND_GATE).unwrap();
    let coords = BlockCoordinate::new(5, 5, 5);
    let event = w.structure.set_block_at(coords, gate, BlockFace::Right).unwrap();
    w.driver.block_changed(&event, 7, &w.structure, &w.blocks, &w.logic_blocks);
    let graph = w.driver.logic_graph();
    // With its top pointing right, the right face points up and the left face down.
    assert!(graph.group_of(Port::new(coords, BlockDirection::PosY), PortType::Input).is_some());
    assert!(graph.group_of(Port::new(coords, BlockDirection::NegY), PortType::Input).is_some());
    assert!(graph.group_of(Port::new(coords, BlockDirection::PosZ), PortType::Output).is_some());
    assert_eq!(graph.group_of(Port::new(coords, BlockDirection::PosX), PortType::Input), None);
    assert_eq!(graph.group_of(Port::new(coords, BlockDirection::NegX), PortType::Input), None);
}

#[test]
fn ports_facing_each_other_share_a_group() {
    let mut w = world();
    place(&mut w, LOGIC_ON, 1, 1, 1);
    place(&mut w, LIGHT, 2, 1, 1);
    let graph = w.driver.logic_graph();
    let out = graph.group_of(port(1, 1, 1, BlockDirection::PosX), PortType::Output).unwrap();
    assert_eq!(graph.group_of(port(2, 1, 1, BlockDirection::NegX), PortType::Input), Some(out));
    let requests = w.driver.update_producer(port(1, 1, 1, BlockDirection::PosX), 1, 3);
    assert_eq!(requests.len(), 1);
    assert_eq!(w.driver.consume(&vec![port(2, 1, 1, BlockDirection::NegX)]), vec![1]);
}

#[test]
fn wires_in_a_ring_are_one_group_and_searches_end() {
    let mut w = world();
    // A ring of eight wires around the empty middle at x = 1, z = 1.
    for (x, z) in [(0, 0), (1, 0), (2, 0), (2, 1), (2, 2), (1, 2), (0, 2), (0, 1)] {
        place(&mut w, WIRE, x, 1, z);
    }
    place(&mut w, LIGHT, 3, 1, 0);
    place(&mut w, LIGHT, 0, 2, 2);
    let near = port(3, 1, 0, BlockDirection::NegX);
    let far = port(0, 2, 2, BlockDirection::NegY);
    let graph = w.driver.logic_graph();
    let group = graph.group_of(near, PortType::Input).unwrap();
    assert_eq!(graph.group_of(far, PortType::Input), Some(group));
    // Breaking the ring in one place keeps everything connected.
    remove(&mut w, 2, 1, 1);
    let graph = w.driver.logic_graph();
    let group = graph.group_of(near, PortType::Input).unwrap();
    assert_eq!(graph.group_of(far, PortType::Input), Some(group));
    let mut inputs = graph.ports_of_group(group, PortType::Input);
    inputs.sort_by_key(|p| p.coords.x);
    assert_eq!(inputs, vec![far, near]);
    // Breaking it in a second place cuts it in two.
    remove(&mut w, 0, 1, 1);
    let graph = w.driver.logic_graph();
    let near_group = graph.group_of(near, PortType::Input).unwrap();
    let far_group = graph.group_of(far, PortType::Input).unwrap();
    assert_ne!(near_group, far_group);
    assert_eq!(graph.ports_of_group(near_group, PortType::Input), vec![near]);
    assert_eq!(graph.ports_of_group(far_group, PortType::Input), vec![far]);
    // Closing the ring again makes one group of the two.
    place(&mut w, WIRE, 0, 1, 1);
    let graph = w.driver.logic_graph();
    let group = graph.group_of(near, PortType::Input).unwrap();
    assert_eq!(graph.group_of(far, PortType::Input), Some(group));
    assert!(graph.group(near_group).is_none());
    assert!(graph.group(far_group).is_none());
}

#[test]
fn group_ids_are_never_used_twice() {
    let mut w = world();
    let mut seen: Vec<usize> = Vec::new();
    let mut note = |w: &World| {
        let mut ids = w.driver.logic_graph().group_ids();
        ids.sort();
        for id in ids {
            if !seen.contains(&id) {
                // An id that shows up for the first time is larger than all before it.
                assert!(seen.iter().all(|old| *old < id));
                seen.push(id);
            }
        }
        assert!(seen.iter().all(|id| *id < w.driver.logic_graph().next_group_id()));
    };
    place(&mut w, WIRE, 1, 1, 1);
    note(&w);
    let first = w.driver.logic_graph().group_with_wire(BlockCoordinate::new(1, 1, 1)).unwrap();
    remove(&mut w, 1, 1, 1);
    note(&w);
    place(&mut w, WIRE, 1, 1, 1);
    note(&w);
    let second = w.driver.logic_graph().group_with_wire(BlockCoordinate::new(1, 1, 1)).unwrap();
    assert!(second > first);
    place(&mut w, WIRE, 3, 1, 1);
    place(&mut w, WIRE, 2, 1, 1);
    note(&w);
    let merged = w.driver.logic_graph().group_with_wire(BlockCoordinate::new(2, 1, 1)).unwrap();
    assert!(merged > second);
    assert_eq!(w.driver.logic_graph().next_group_id(), merged + 1);
}

#[test]
fn wire_joins_the_one_group_beside_it() {
    let mut w = world();
    place(&mut w, LOGIC_ON, 1, 1, 1);
    let out = port(1, 1, 1, BlockDirection::PosX);
    let group = w.driver.logic_graph().group_of(out, PortType::Output).unwrap();
    w.driver.update_producer(out, 9, 1);
    let count = w.driver.logic_graph().group_count();
    place(&mut w, WIRE, 2, 1, 1);
    let graph = w.driver.logic_graph();
    // The wire joins the port's group: same id, same signal, and the wire stands for it.
    assert_eq!(graph.group_count(), count);
    assert_eq!(graph.group_of(out, PortType::Output), Some(group));
    assert_eq!(graph.group_with_wire(BlockCoordinate::new(2, 1, 1)), Some(group));
    assert_eq!(graph.group_signal(group), 9);
    place(&mut w, WIRE, 3, 1, 1);
    let graph = w.driver.logic_graph();
    assert_eq!(graph.group_with_wire(BlockCoordinate::new(3, 1, 1)), Some(group));
    assert_eq!(graph.group_with_wire(BlockCoordinate::new(2, 1, 1)), None);
    // Taking the first wire away again leaves the port with a group of its own.
    remove(&mut w, 2, 1, 1);
    let graph = w.driver.logic_graph();
    let alone = graph.group_of(out, PortType::Output).unwrap();
    assert_ne!(alone, group);
    assert_eq!(graph.group_signal(alone), 9);
    assert_eq!(graph.group_with_wire(BlockCoordinate::new(3, 1, 1)), None);
    assert_eq!(graph.group_count(), count);
}
