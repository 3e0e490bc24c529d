//! What holds of the logic graph whatever is built with it.

use vstd::prelude::*;

use crate::block::block_direction::BlockDirection;
use crate::block::block_face::BlockFace;
use crate::logic::edit::{
    spec_block_added, spec_block_removed, spec_first_wire, spec_found_from, spec_group_of_wire,
    spec_groups_found, spec_port_placed, spec_ports_placed, spec_ports_reached, spec_wire_placed,
    spec_wire_removed,
};
use crate::logic::edit::spec_found_by_faces;
use crate::logic::search::{anchored, is_search_result};
use crate::logic::LogicBlock;
use crate::logic::search::spec_marks_after;
use crate::logic::LogicConnection;
use crate::logic::events::LogicSystemSet;
use crate::logic::logic_graph::{LogicGraph, LogicGraphView};
use crate::logic::world::LogicWorld;
use crate::logic::{Port, PortType};
use crate::structure::coordinates::BlockCoordinate;

verus! {

/// No group is left over: every group of a graph has a port, or a wire block that stands
/// for it. A new graph has no groups, and adding a logic block, removing one and writing a
/// signal each keep a graph well-formed, so this holds after any sequence of them.
pub proof fn law_no_dangling_groups(graph: &LogicGraph, group: usize)
    requires
        graph.wf(),
        graph@.groups.contains_key(group),
    ensures
        graph@.has_port(group) || graph@.groups[group].recent_wire_coords.is_some(),
        group < graph@.next_group_id,
{
}

/// Every port of a graph belongs to exactly one group of its kind, and that group exists.
pub proof fn law_port_in_one_group(graph: &LogicGraph, port: Port, port_type: PortType)
    requires
        graph.wf(),
        graph@.group_of(port, port_type).is_some(),
    ensures
        graph@.groups.contains_key(graph@.group_of(port, port_type).unwrap()),
        forall|group: usize|
            graph@.ports_of(group, port_type).contains(port) <==> graph@.group_of(port, port_type)
                == Some(group),
{
    match port_type {
        PortType::Input => {
            assert(graph@.input_groups.contains_key(port));
        },
        PortType::Output => {
            assert(graph@.output_groups.contains_key(port));
        },
    }
}

/// The list of ports that a group keeps and the index of ports say the same: the list holds
/// each port of the group once and no other port, and the index names this group for every
/// port on the list.
pub proof fn law_group_lists_its_ports(graph: &LogicGraph, group: usize, port_type: PortType)
    requires
        graph.wf(),
        graph@.groups.contains_key(group),
    ensures
        graph.spec_groups().contains_key(group),
        graph.spec_groups()[group].spec_ports(port_type).no_duplicates(),
        graph.spec_groups()[group].spec_ports(port_type).to_set() == graph@.ports_of(
            group,
            port_type,
        ),
        forall|i: int|
            0 <= i < graph.spec_groups()[group].spec_ports(port_type).len() ==> graph@.group_of(
                #[trigger] graph.spec_groups()[group].spec_ports(port_type)[i],
                port_type,
            ) == Some(group),
{
    graph.lemma_view_groups(group);
    graph.lemma_ports_of_group(group, port_type);
    let list = graph.spec_groups()[group].spec_ports(port_type);
    assert forall|i: int| 0 <= i < list.len() implies graph@.group_of(
        #[trigger] list[i],
        port_type,
    ) == Some(group) by {
        assert(list.to_set().contains(list[i]));
        assert(graph@.ports_of(group, port_type).contains(list[i]));
    }
}

/// A signal takes one tick from an output port to an input port of the same group.
///
/// A tick consumes first and produces second. What the input port reads at the tick in
/// which the output port writes `signal` is the signal the group had before, whatever
/// `signal` is. What it reads after that tick's produce, which is at the next tick's consume
/// at the earliest, is `signal`.
pub proof fn law_one_tick_delay(
    before: LogicGraphView,
    input: Port,
    output: Port,
    group: usize,
    signal: i32,
)
    requires
        before.group_of(input, PortType::Input) == Some(group),
        before.group_of(output, PortType::Output) == Some(group),
    ensures
        LogicSystemSet::Consume.spec_order() < LogicSystemSet::Produce.spec_order(),
        LogicSystemSet::Consume.spec_on_tick_only() && LogicSystemSet::Produce.spec_on_tick_only(),
        before.port_input(input) == before.groups[group].signal,
        before.produced(output, signal).port_input(input) == signal,
        before.produced(output, signal).group_of(input, PortType::Input) == Some(group),
{
}

/// Writing a signal changes nothing but the signal of the writer's group.
pub proof fn law_produce_touches_one_group(
    before: LogicGraphView,
    output: Port,
    signal: i32,
    other: usize,
)
    requires
        before.group_of(output, PortType::Output) != Some(other),
        before.groups.contains_key(other),
    ensures
        before.produced(output, signal).groups.contains_key(other),
        before.produced(output, signal).groups[other] == before.groups[other],
        before.produced(output, signal).input_groups == before.input_groups,
        before.produced(output, signal).output_groups == before.output_groups,
        before.produced(output, signal).next_group_id == before.next_group_id,
{
}

/// A wire block placed between two groups makes one group of them.
///
/// `graph` is the graph before the wire block is placed at `coords`, and `after` the graph
/// with the wire placed. Around the block lie the groups `a` and `b` and nothing else: each
/// search from the block gets to `a`, to `b` or to no group, the search along the direction
/// numbered `toward_a` can only get to `a` and the one numbered `toward_b` only to `b`. Then the two groups are gone and one new group has taken
/// their place. It has exactly the ports of the two, so as many as both together; it is on
/// if one of the two was; and the new wire block stands for it. Every other group and every
/// other port is as it was.
pub proof fn law_merge(
    graph: &LogicGraph,
    after: LogicGraphView,
    world: LogicWorld,
    coords: BlockCoordinate,
    directions: Seq<BlockDirection>,
    a: usize,
    b: usize,
    toward_a: int,
    toward_b: int,
)
    requires
        graph.wf(),
        a != b,
        graph@.groups.contains_key(a),
        graph@.groups.contains_key(b),
        spec_wire_placed(graph@, after, world, coords, directions),
        forall|i: int, found: Option<usize>|
            0 <= i < directions.len() && #[trigger] spec_found_from(
                graph@,
                world,
                coords,
                directions[i],
                found,
            ) ==> found.is_none() || found == Some(a) || found == Some(b),
        0 <= toward_a < directions.len(),
        0 <= toward_b < directions.len(),
        forall|found: Option<usize>| #[trigger]
            spec_found_from(graph@, world, coords, directions[toward_a], found) ==> found == Some(
                a,
            ),
        forall|found: Option<usize>| #[trigger]
            spec_found_from(graph@, world, coords, directions[toward_b], found) ==> found == Some(
                b,
            ),
    ensures
        ({
            let merged = graph@.next_group_id;
            &&& after == graph@.merged(Set::<usize>::empty().insert(a).insert(b), coords)
            &&& after.groups.contains_key(merged)
            &&& !after.groups.contains_key(a)
            &&& !after.groups.contains_key(b)
            &&& after.groups[merged].recent_wire_coords == Some(coords)
            &&& after.groups[merged].signal == if graph@.groups[a].signal != 0
                || graph@.groups[b].signal != 0 {
                1i32
            } else {
                0i32
            }
            &&& forall|t: PortType|
                #![trigger after.ports_of(merged, t)]
                {
                    &&& after.ports_of(merged, t) == graph@.ports_of(a, t) + graph@.ports_of(b, t)
                    &&& graph@.ports_of(a, t).disjoint(graph@.ports_of(b, t))
                    &&& after.ports_of(merged, t).len() == graph@.ports_of(a, t).len()
                        + graph@.ports_of(b, t).len()
                }
            &&& forall|g: usize|
                g != a && g != b && graph@.groups.contains_key(g) ==> #[trigger] after.groups.contains_key(
                    g,
                ) && after.groups[g] == graph@.groups[g]
            &&& forall|g: usize, t: PortType|
                g != a && g != b && g != merged ==> #[trigger] after.ports_of(g, t)
                    == graph@.ports_of(g, t)
        }),
{
    let before = graph@;
    let merged = before.next_group_id;
    let found = choose|found: Seq<Option<usize>>|
        found.len() == directions.len() && (forall|i: int|
            0 <= i < directions.len() ==> #[trigger] spec_found_from(
                before,
                world,
                coords,
                directions[i],
                found[i],
            )) && after == #[trigger] before.wire_joined(coords, spec_groups_found(found));
    let ids = spec_groups_found(found);
    let both = Set::<usize>::empty().insert(a).insert(b);
    let ia = toward_a;
    let ib = toward_b;
    assert(spec_found_from(before, world, coords, directions[ia], found[ia]));
    assert(spec_found_from(before, world, coords, directions[ib], found[ib]));
    assert(found[ia] == Some(a));
    assert(found[ib] == Some(b));
    assert forall|g: usize| ids.contains(g) <==> both.contains(g) by {
        if ids.contains(g) {
            let i = choose|i: int| 0 <= i < found.len() && found[i] == Some(g);
            assert(spec_found_from(before, world, coords, directions[i], found[i]));
        }
    }
    assert(ids =~= both);
    assert(!(ids =~= Set::<usize>::empty())) by {
        assert(ids.contains(a));
    }
    if ids =~= Set::<usize>::empty().insert(ids.choose()) {
        assert(ids.contains(a) && ids.contains(b));
        assert(a == ids.choose());
        assert(b == ids.choose());
    }
    assert(after == before.merged(both, coords));
    assert(crate::logic::logic_graph::spec_merged_signal(before.groups, both) == if before.groups[a].signal
        != 0 || before.groups[b].signal != 0 {
        1i32
    } else {
        0i32
    }) by {
        if before.groups[a].signal != 0 {
            assert(both.contains(a));
        }
        if before.groups[b].signal != 0 {
            assert(both.contains(b));
        }
    }
    assert forall|t: PortType|
        #![trigger after.ports_of(merged, t)]
        {
            &&& after.ports_of(merged, t) == before.ports_of(a, t) + before.ports_of(b, t)
            &&& before.ports_of(a, t).disjoint(before.ports_of(b, t))
            &&& after.ports_of(merged, t).len() == before.ports_of(a, t).len() + before.ports_of(
                b,
                t,
            ).len()
        } by {
        graph.lemma_ports_finite(a, t);
        graph.lemma_ports_finite(b, t);
        assert forall|p: Port|
            after.ports_of(merged, t).contains(p) <==> (before.ports_of(a, t) + before.ports_of(
                b,
                t,
            )).contains(p) by {
            match t {
                PortType::Input => {
                    if before.input_groups.contains_key(p) {
                        assert(before.groups.contains_key(before.input_groups[p]));
                    }
                },
                PortType::Output => {
                    if before.output_groups.contains_key(p) {
                        assert(before.groups.contains_key(before.output_groups[p]));
                    }
                },
            }
        }
        assert(after.ports_of(merged, t) =~= before.ports_of(a, t) + before.ports_of(b, t));
        vstd::set_lib::lemma_set_disjoint_lens(before.ports_of(a, t), before.ports_of(b, t));
    }
    assert forall|g: usize, t: PortType| g != a && g != b && g != merged implies #[trigger]
        after.ports_of(g, t) == before.ports_of(g, t) by {
        assert forall|p: Port| after.ports_of(g, t).contains(p) <==> before.ports_of(
            g,
            t,
        ).contains(p) by {
            match t {
                PortType::Input => {},
                PortType::Output => {},
            }
        }
        assert(after.ports_of(g, t) =~= before.ports_of(g, t));
    }
}

/// Whatever is reached past more blocked ports is reached past fewer.
pub proof fn lemma_reach_monotone(
    world: LogicWorld,
    fewer: Set<Port>,
    more: Set<Port>,
    start: Port,
    target: Port,
)
    requires
        fewer.subset_of(more),
        world.reaches(more, start, target),
    ensures
        world.reaches(fewer, start, target),
{
    let path = choose|path: Seq<Port>|
        #[trigger] world.is_path(more, path) && path[0] == start && path.last() == target;
    assert forall|i: int| 0 <= i < path.len() - 1 implies world.wire_step(
        fewer,
        path[i],
        #[trigger] path[i + 1],
    ) by {
        assert(world.wire_step(more, path[i], path[i + 1]));
    }
    assert(world.is_path(fewer, path));
}

/// Every port on a path is reached from the start of the path.
pub proof fn lemma_reach_along_path(world: LogicWorld, blocked: Set<Port>, path: Seq<Port>, i: int)
    requires
        world.is_path(blocked, path),
        0 <= i < path.len(),
    ensures
        world.reaches(blocked, path[0], path[i]),
{
    let shorter = path.take(i + 1);
    assert forall|k: int| 0 <= k < shorter.len() - 1 implies world.wire_step(
        blocked,
        shorter[k],
        #[trigger] shorter[k + 1],
    ) by {
        assert(world.wire_step(blocked, path[k], path[k + 1]));
    }
    assert forall|k: int| 0 <= k < shorter.len() implies !blocked.contains(
        #[trigger] shorter[k],
    ) by {
        assert(shorter[k] == path[k]);
    }
    assert(world.is_path(blocked, shorter));
    assert(shorter[0] == path[0] && shorter.last() == path[i]);
}

/// Whether the searches from `a` and from `b` come to no wire block in common and to no
/// port in common.
pub open spec fn spec_sides_apart(world: LogicWorld, blocked: Set<Port>, a: Port, b: Port) -> bool {
    &&& forall|c: BlockCoordinate|
        !(#[trigger] world.reaches_wire_block(blocked, a, c) && world.reaches_wire_block(
            blocked,
            b,
            c,
        ))
    &&& forall|p: Port|
        !(#[trigger] world.reaches(blocked, a, p) && world.reaches(blocked, b, p))
}

/// A search is not hindered by the marks that a search on another side has left, where the
/// two sides have no wire block in common.
pub proof fn lemma_reach_past_other_side(
    world: LogicWorld,
    blocked: Set<Port>,
    a: Port,
    b: Port,
    target: Port,
)
    requires
        spec_sides_apart(world, blocked, a, b),
    ensures
        world.reaches(Set::new(|p: Port| spec_marks_after(world, blocked, a, p)), b, target)
            <==> world.reaches(blocked, b, target),
{
    let marks = Set::new(|p: Port| spec_marks_after(world, blocked, a, p));
    if world.reaches(marks, b, target) {
        lemma_reach_monotone(world, blocked, marks, b, target);
    }
    if world.reaches(blocked, b, target) {
        let path = choose|path: Seq<Port>|
            #[trigger] world.is_path(blocked, path) && path[0] == b && path.last() == target;
        assert forall|i: int| 0 <= i < path.len() implies !marks.contains(#[trigger] path[i]) by {
            if marks.contains(path[i]) {
                lemma_reach_along_path(world, blocked, path, i);
                assert(world.reaches(blocked, b, path[i]) && world.is_wire(path[i])
                    && path[i].coords == path[i].coords);
                assert(world.reaches_wire_block(blocked, b, path[i].coords));
                assert(world.reaches_wire_block(blocked, a, path[i].coords));
            }
        }
        assert forall|i: int| 0 <= i < path.len() - 1 implies world.wire_step(
            marks,
            path[i],
            #[trigger] path[i + 1],
        ) by {
            assert(world.wire_step(blocked, path[i], path[i + 1]));
            let exit = Port {
                coords: path[i].coords,
                direction: path[i + 1].direction.spec_inverse(),
            };
            if marks.contains(exit) {
                lemma_reach_along_path(world, blocked, path, i);
                assert(world.reaches(blocked, b, path[i]) && world.is_wire(path[i])
                    && path[i].coords == exit.coords);
                assert(world.reaches_wire_block(blocked, b, exit.coords));
                assert(world.reaches_wire_block(blocked, a, exit.coords));
            }
        }
        assert(world.is_path(marks, path));
    }
}

/// A search that starts at a face without a logic connection finds no port and marks
/// nothing.
pub proof fn lemma_search_from_nothing(world: LogicWorld, blocked: Set<Port>, start: Port)
    requires
        world.connection(start).is_none(),
    ensures
        spec_ports_reached(world, blocked, start) == Set::<(Port, PortType)>::empty(),
        Set::new(|p: Port| spec_marks_after(world, blocked, start, p)) == blocked,
        spec_first_wire(world, blocked, start).is_none(),
{
    assert forall|pair: (Port, PortType)| !spec_ports_reached(world, blocked, start).contains(
        pair,
    ) by {
        if world.reaches(blocked, start, pair.0) {
            crate::logic::world::lemma_reach_from_non_wire(world, blocked, start, pair.0);
        }
    }
    assert(spec_ports_reached(world, blocked, start) =~= Set::<(Port, PortType)>::empty());
    assert forall|p: Port| spec_marks_after(world, blocked, start, p) <==> blocked.contains(
        p,
    ) by {
        if world.reaches_wire_block(blocked, start, p.coords) {
            let e = choose|e: Port| #[trigger]
                world.reaches(blocked, start, e) && world.is_wire(e) && e.coords == p.coords;
            crate::logic::world::lemma_reach_from_non_wire(world, blocked, start, e);
        }
    }
    assert(Set::new(|p: Port| spec_marks_after(world, blocked, start, p)) =~= blocked);
}

/// Whether the face of the block at `coords` that points along `direction` faces nothing
/// with a logic connection: the step leaves the structure, or what is there has no logic
/// connection on the face that faces back.
pub open spec fn spec_leads_nowhere(
    world: LogicWorld,
    coords: BlockCoordinate,
    direction: BlockDirection,
) -> bool {
    match (Port { coords, direction }).spec_facing(world.dimensions) {
        Some(start) => world.connection(start).is_none(),
        None => true,
    }
}

/// What the graph and the marks are after the first `count` of the searches that put the
/// surroundings of a removed wire block into groups again, where only the searches numbered
/// `toward_a` and `toward_b` start at a logic connection.
pub open spec fn spec_split_progress(
    cleared: LogicGraphView,
    world: LogicWorld,
    signal: i32,
    coords: BlockCoordinate,
    a: Port,
    b: Port,
    toward_a: int,
    toward_b: int,
    count: int,
) -> (LogicGraphView, Set<Port>) {
    let blocked = Port::spec_all_for(coords);
    let with_a = cleared.attached(
        spec_ports_reached(world, blocked, a),
        signal,
        spec_first_wire(world, blocked, a),
    );
    let marks_a = Set::new(|p: Port| spec_marks_after(world, blocked, a, p));
    if count <= toward_a {
        (cleared, blocked)
    } else if count <= toward_b {
        (with_a, marks_a)
    } else {
        (
            with_a.attached(
                spec_ports_reached(world, marks_a, b),
                signal,
                spec_first_wire(world, marks_a, b),
            ),
            Set::new(|p: Port| spec_marks_after(world, marks_a, b, p)),
        )
    }
}

/// The searches that lead nowhere change nothing: the surroundings are put into groups by
/// the two searches that start at a logic connection.
pub proof fn lemma_split_progress(
    cleared: LogicGraphView,
    world: LogicWorld,
    signal: i32,
    coords: BlockCoordinate,
    directions: Seq<BlockDirection>,
    a: Port,
    b: Port,
    toward_a: int,
    toward_b: int,
    count: int,
)
    requires
        0 <= toward_a < toward_b < directions.len(),
        0 <= count <= directions.len(),
        (Port { coords, direction: directions[toward_a] }).spec_facing(world.dimensions) == Some(a),
        (Port { coords, direction: directions[toward_b] }).spec_facing(world.dimensions) == Some(b),
        forall|k: int|
            0 <= k < directions.len() && k != toward_a && k != toward_b
                ==> #[trigger] spec_leads_nowhere(world, coords, directions[k]),
    ensures
        cleared.rederived(world, signal, coords, directions.take(count)) == spec_split_progress(
            cleared,
            world,
            signal,
            coords,
            a,
            b,
            toward_a,
            toward_b,
            count,
        ),
    decreases count,
{
    if count > 0 {
        lemma_split_progress(
            cleared,
            world,
            signal,
            coords,
            directions,
            a,
            b,
            toward_a,
            toward_b,
            count - 1,
        );
        let shorter = directions.take(count - 1);
        let longer = directions.take(count);
        assert(longer.drop_last() =~= shorter);
        assert(longer.last() == directions[count - 1]);
        let (view, blocked) = cleared.rederived(world, signal, coords, shorter);
        let k = count - 1;
        let port = Port { coords, direction: directions[k] };
        if k != toward_a && k != toward_b {
            assert(spec_leads_nowhere(world, coords, directions[k]));
            match port.spec_facing(world.dimensions) {
                Some(start) => {
                    lemma_search_from_nothing(world, blocked, start);
                    assert(!(exists|p: Port, t: PortType|
                        view.is_loose(spec_ports_reached(world, blocked, start), p, t)));
                },
                None => {},
            }
        }
    } else {
        assert(directions.take(0) =~= Seq::<BlockDirection>::empty());
    }
}

/// Removing the wire block that alone connected two networks leaves two groups, one per
/// side, each with exactly the ports of its side.
///
/// `cleared` is the graph after the group of the removed wire block has been removed, and
/// `signal` the signal that group had. The block at `coords` had wire faces along
/// `directions`; the faces numbered `toward_a` and `toward_b` face the ports `a` and `b`,
/// and the other faces face nothing with a logic connection. The two sides are apart:
/// searches from `a` and from `b`, neither passing the removed block, come to no wire block
/// and no port in common. Every port on either side is in no group, as it was in the
/// removed one, and each side has a port: `port_a` and `port_b`.
///
/// Then putting the surroundings into groups again makes exactly two groups, one per side.
/// Each takes over the signal, each holds exactly the input and output ports that the
/// search on its side comes to, so every port of either side is in one of the two and none
/// in both, and every other group and port is as it was.
pub proof fn law_split(
    cleared: LogicGraphView,
    world: LogicWorld,
    signal: i32,
    coords: BlockCoordinate,
    directions: Seq<BlockDirection>,
    a: Port,
    b: Port,
    toward_a: int,
    toward_b: int,
    port_a: (Port, PortType),
    port_b: (Port, PortType),
)
    requires
        cleared.inv(),
        cleared.next_group_id + 2 <= usize::MAX,
        0 <= toward_a < toward_b < directions.len(),
        (Port { coords, direction: directions[toward_a] }).spec_facing(world.dimensions) == Some(a),
        (Port { coords, direction: directions[toward_b] }).spec_facing(world.dimensions) == Some(b),
        forall|k: int|
            0 <= k < directions.len() && k != toward_a && k != toward_b
                ==> #[trigger] spec_leads_nowhere(world, coords, directions[k]),
        spec_sides_apart(world, Port::spec_all_for(coords), a, b),
        forall|p: Port, t: PortType|
            (world.reaches(Port::spec_all_for(coords), a, p) || world.reaches(
                Port::spec_all_for(coords),
                b,
                p,
            )) && world.connection(p) == Some(LogicConnection::Port(t)) ==> (
            #[trigger] cleared.group_of(p, t)).is_none(),
        spec_ports_reached(world, Port::spec_all_for(coords), a).contains(port_a),
        spec_ports_reached(world, Port::spec_all_for(coords), b).contains(port_b),
    ensures
        ({
            let blocked = Port::spec_all_for(coords);
            let after = cleared.rederived(world, signal, coords, directions).0;
            let group_a = cleared.next_group_id;
            let group_b = (cleared.next_group_id + 1) as usize;
            &&& after.next_group_id == cleared.next_group_id + 2
            &&& after.groups.dom() == cleared.groups.dom().insert(group_a).insert(group_b)
            &&& !cleared.groups.contains_key(group_a)
            &&& !cleared.groups.contains_key(group_b)
            &&& after.groups[group_a].signal == signal
            &&& after.groups[group_b].signal == signal
            &&& after.groups[group_a].recent_wire_coords == spec_first_wire(world, blocked, a)
            &&& after.groups[group_b].recent_wire_coords == spec_first_wire(world, blocked, b)
            &&& forall|g: usize| #[trigger]
                cleared.groups.contains_key(g) ==> after.groups[g] == cleared.groups[g]
            &&& forall|p: Port, t: PortType|
                #[trigger] after.ports_of(group_a, t).contains(p) <==> spec_ports_reached(
                    world,
                    blocked,
                    a,
                ).contains((p, t))
            &&& forall|p: Port, t: PortType|
                #[trigger] after.ports_of(group_b, t).contains(p) <==> spec_ports_reached(
                    world,
                    blocked,
                    b,
                ).contains((p, t))
            &&& forall|p: Port, t: PortType|
                !(#[trigger] after.ports_of(group_a, t).contains(p) && after.ports_of(
                    group_b,
                    t,
                ).contains(p))
            &&& forall|p: Port, t: PortType|
                (#[trigger] cleared.group_of(p, t)).is_some() ==> after.group_of(p, t)
                    == cleared.group_of(p, t)
            &&& forall|p: Port, t: PortType|
                (#[trigger] after.group_of(p, t)).is_some() ==> cleared.group_of(p, t).is_some()
                    || spec_ports_reached(world, blocked, a).contains((p, t))
                    || spec_ports_reached(world, blocked, b).contains((p, t))
        }),
{
    let blocked = Port::spec_all_for(coords);
    let reached_a = spec_ports_reached(world, blocked, a);
    let reached_b = spec_ports_reached(world, blocked, b);
    let marks_a = Set::new(|p: Port| spec_marks_after(world, blocked, a, p));
    let group_a = cleared.next_group_id;
    let group_b = (cleared.next_group_id + 1) as usize;
    lemma_split_progress(
        cleared,
        world,
        signal,
        coords,
        directions,
        a,
        b,
        toward_a,
        toward_b,
        directions.len() as int,
    );
    assert(directions.take(directions.len() as int) =~= directions);
    // The marks of the first search do not hinder the second.
    assert forall|pair: (Port, PortType)|
        spec_ports_reached(world, marks_a, b).contains(pair) <==> reached_b.contains(pair) by {
        lemma_reach_past_other_side(world, blocked, a, b, pair.0);
    }
    assert(spec_ports_reached(world, marks_a, b) =~= reached_b);
    assert(spec_first_wire(world, marks_a, b) == spec_first_wire(world, blocked, b)) by {
        if world.is_wire(b) && !blocked.contains(b) && marks_a.contains(b) {
            crate::logic::world::lemma_reach_self(world, blocked, b);
            assert(world.reaches(blocked, b, b) && world.is_wire(b) && b.coords == b.coords);
            assert(world.reaches_wire_block(blocked, b, b.coords));
            assert(world.reaches_wire_block(blocked, a, b.coords));
        }
    }
    let with_a = cleared.attached(reached_a, signal, spec_first_wire(world, blocked, a));
    let after = with_a.attached(reached_b, signal, spec_first_wire(world, blocked, b));
    assert(cleared.rederived(world, signal, coords, directions).0 == after);
    // Each side has a port that is in no group.
    assert(cleared.is_loose(reached_a, port_a.0, port_a.1)) by {
        assert((port_a.0, port_a.1) == port_a);
    }
    assert((port_b.0, port_b.1) == port_b);
    assert(cleared.group_of(port_b.0, port_b.1).is_none());
    assert(!reached_a.contains(port_b)) by {
        if reached_a.contains(port_b) {
            assert(world.reaches(blocked, a, port_b.0) && world.reaches(blocked, b, port_b.0));
        }
    }
    assert(with_a.group_of(port_b.0, port_b.1).is_none()) by {
        match port_b.1 {
            PortType::Input => {},
            PortType::Output => {},
        }
    }
    assert(with_a.is_loose(reached_b, port_b.0, port_b.1));
    assert(!cleared.groups.contains_key(group_a));
    assert(!cleared.groups.contains_key(group_b));
    assert(after.groups.dom() =~= cleared.groups.dom().insert(group_a).insert(group_b));
    assert forall|p: Port| #[trigger] cleared.input_groups.contains_key(p) implies cleared.input_groups[p]
        != group_a && cleared.input_groups[p] != group_b by {
        assert(cleared.groups.contains_key(cleared.input_groups[p]));
    }
    assert forall|p: Port| #[trigger] cleared.output_groups.contains_key(p) implies cleared.output_groups[p]
        != group_a && cleared.output_groups[p] != group_b by {
        assert(cleared.groups.contains_key(cleared.output_groups[p]));
    }
    assert forall|p: Port, t: PortType|
        reached_a.contains((p, t)) implies cleared.is_loose(reached_a, p, t) && !reached_b.contains(
        (p, t),
    ) by {
        if reached_b.contains((p, t)) {
            assert(world.reaches(blocked, a, p) && world.reaches(blocked, b, p));
        }
    }
    assert forall|p: Port, t: PortType|
        reached_b.contains((p, t)) implies with_a.is_loose(reached_b, p, t) by {
        if reached_a.contains((p, t)) {
            assert(world.reaches(blocked, a, p) && world.reaches(blocked, b, p));
        }
        assert(cleared.group_of(p, t).is_none());
        match t {
            PortType::Input => {},
            PortType::Output => {},
        }
    }
    assert forall|p: Port, t: PortType| #[trigger]
        after.ports_of(group_a, t).contains(p) <==> reached_a.contains((p, t)) by {
        match t {
            PortType::Input => {
                if reached_a.contains((p, t)) {
                    assert(cleared.is_loose(reached_a, p, PortType::Input));
                }
            },
            PortType::Output => {
                if reached_a.contains((p, t)) {
                    assert(cleared.is_loose(reached_a, p, PortType::Output));
                }
            },
        }
    }
    assert forall|p: Port, t: PortType| #[trigger]
        after.ports_of(group_b, t).contains(p) <==> reached_b.contains((p, t)) by {
        match t {
            PortType::Input => {
                if reached_b.contains((p, t)) {
                    assert(with_a.is_loose(reached_b, p, PortType::Input));
                }
            },
            PortType::Output => {
                if reached_b.contains((p, t)) {
                    assert(with_a.is_loose(reached_b, p, PortType::Output));
                }
            },
        }
    }
    assert forall|p: Port, t: PortType| (#[trigger] cleared.group_of(p, t)).is_some() implies after.group_of(
        p,
        t,
    ) == cleared.group_of(p, t) by {
        match t {
            PortType::Input => {},
            PortType::Output => {},
        }
    }
    assert forall|p: Port, t: PortType| (#[trigger] after.group_of(p, t)).is_some() implies cleared.group_of(
        p,
        t,
    ).is_some() || reached_a.contains((p, t)) || reached_b.contains((p, t)) by {
        match t {
            PortType::Input => {},
            PortType::Output => {},
        }
    }
}

/// Whether `port` is a port of the kind `port_type` that a search from `a` or from `b` comes
/// to, neither search passing the block at `coords`.
pub open spec fn spec_on_either_side(
    world: LogicWorld,
    coords: BlockCoordinate,
    a: Port,
    b: Port,
    port: Port,
    port_type: PortType,
) -> bool {
    (world.reaches(Port::spec_all_for(coords), a, port) || world.reaches(
        Port::spec_all_for(coords),
        b,
        port,
    )) && world.connection(port) == Some(LogicConnection::Port(port_type))
}

/// Whether the wire block at `coords`, with wire faces along `directions`, is all that
/// joins two networks which together are the group `group`. The faces numbered `toward_a`
/// and `toward_b` face `a` and `b`; the other faces face nothing with a logic connection.
/// Searches from `a` and from `b` that do not pass the block come to no wire block and no
/// port in common. The ports they come to are exactly the ports of `group`, nothing they
/// come to tells another group, and the block stands for no other group.
pub open spec fn spec_sole_connector(
    before: LogicGraphView,
    world: LogicWorld,
    coords: BlockCoordinate,
    directions: Seq<BlockDirection>,
    group: usize,
    a: Port,
    b: Port,
    toward_a: int,
    toward_b: int,
) -> bool {
    &&& before.groups.contains_key(group)
    &&& forall|other: usize| before.stands_for(coords, other) ==> other == group
    &&& 0 <= toward_a < toward_b < directions.len()
    &&& (Port { coords, direction: directions[toward_a] }).spec_facing(world.dimensions) == Some(a)
    &&& (Port { coords, direction: directions[toward_b] }).spec_facing(world.dimensions) == Some(b)
    &&& forall|k: int|
        0 <= k < directions.len() && k != toward_a && k != toward_b
            ==> #[trigger] spec_leads_nowhere(world, coords, directions[k])
    &&& spec_sides_apart(world, Port::spec_all_for(coords), a, b)
    &&& forall|p: Port, t: PortType| #[trigger]
        spec_on_either_side(world, coords, a, b, p, t) ==> before.group_of(p, t) == Some(group)
    &&& forall|p: Port, t: PortType|
        #[trigger] before.group_of(p, t) == Some(group) ==> spec_on_either_side(
            world,
            coords,
            a,
            b,
            p,
            t,
        )
    &&& forall|at: Port, other: usize|
        (world.reaches(Port::spec_all_for(coords), a, at) || world.reaches(
            Port::spec_all_for(coords),
            b,
            at,
        )) && #[trigger] anchored(before, world, at, other) ==> other == group
}

/// Removing the wire block that alone connects two networks splits its group in two.
///
/// `before` is the graph before the wire block at `coords` is taken away, `after` the graph
/// after. The block is the sole connector of the two networks that make up `group`, and
/// each of them has a port: `port_a` and `port_b`.
///
/// Then `group` is gone and exactly two groups have come in its place, with ids that were
/// never used before. Each has the signal of `group` and exactly the ports of its side, so
/// the ports of the two together are the ports that `group` had, and none is in both. Every
/// other group keeps its id, its signal and its ports.
pub proof fn law_split_by_removal(
    before: LogicGraphView,
    after: LogicGraphView,
    world: LogicWorld,
    coords: BlockCoordinate,
    directions: Seq<BlockDirection>,
    group: usize,
    a: Port,
    b: Port,
    toward_a: int,
    toward_b: int,
    port_a: (Port, PortType),
    port_b: (Port, PortType),
)
    requires
        before.inv(),
        before.next_group_id + 2 <= usize::MAX,
        spec_wire_removed(before, after, world, coords, directions),
        spec_sole_connector(before, world, coords, directions, group, a, b, toward_a, toward_b),
        spec_ports_reached(world, Port::spec_all_for(coords), a).contains(port_a),
        spec_ports_reached(world, Port::spec_all_for(coords), b).contains(port_b),
    ensures
        ({
            let blocked = Port::spec_all_for(coords);
            let group_a = before.next_group_id;
            let group_b = (before.next_group_id + 1) as usize;
            &&& after.next_group_id == before.next_group_id + 2
            &&& after.groups.dom() == before.groups.dom().remove(group).insert(group_a).insert(
                group_b,
            )
            &&& !after.groups.contains_key(group)
            &&& !before.groups.contains_key(group_a)
            &&& !before.groups.contains_key(group_b)
            &&& after.groups[group_a].signal == before.groups[group].signal
            &&& after.groups[group_b].signal == before.groups[group].signal
            &&& forall|p: Port, t: PortType|
                #[trigger] after.ports_of(group_a, t).contains(p) <==> spec_ports_reached(
                    world,
                    blocked,
                    a,
                ).contains((p, t))
            &&& forall|p: Port, t: PortType|
                #[trigger] after.ports_of(group_b, t).contains(p) <==> spec_ports_reached(
                    world,
                    blocked,
                    b,
                ).contains((p, t))
            &&& forall|t: PortType|
                #![trigger after.ports_of(group_a, t)]
                after.ports_of(group_a, t).disjoint(after.ports_of(group_b, t)) && after.ports_of(
                    group_a,
                    t,
                ) + after.ports_of(group_b, t) == before.ports_of(group, t)
            &&& forall|other: usize|
                other != group && #[trigger] before.groups.contains_key(other)
                    ==> after.groups.contains_key(other) && after.groups[other]
                    == before.groups[other]
            &&& forall|p: Port, t: PortType|
                #![trigger after.group_of(p, t)]
                before.group_of(p, t).is_some() && before.group_of(p, t) != Some(group)
                    ==> after.group_of(p, t) == before.group_of(p, t)
            &&& forall|p: Port, t: PortType|
                #![trigger after.group_of(p, t)]
                after.group_of(p, t).is_some() <==> before.group_of(p, t).is_some()
        }),
{
    let blocked = Port::spec_all_for(coords);
    let found = choose|found: Option<usize>| #[trigger]
        spec_group_of_wire(before, world, coords, directions, found) && after == (match found {
            Some(g) => before.without_group(g).rederived(
                world,
                before.groups[g].signal,
                coords,
                directions,
            ).0,
            None => before.rederived(world, 0, coords, directions).0,
        });
    assert((port_a.0, port_a.1) == port_a);
    assert(spec_on_either_side(world, coords, a, b, port_a.0, port_a.1));
    assert(before.group_of(port_a.0, port_a.1) == Some(group));
    assert(anchored(before, world, port_a.0, group));
    // The group that is removed is `group`, however it is found.
    assert(found == Some(group)) by {
        if !(found matches Some(g) && before.stands_for(coords, g)) {
            assert(spec_found_by_faces(before, world, coords, directions, found));
            match found {
                Some(other) => {
                    let i = choose|i: int|
                        0 <= i < directions.len() && #[trigger] spec_found_from(
                            before,
                            world,
                            coords,
                            directions[i],
                            Some(other),
                        ) && forall|j: int|
                            0 <= j < i ==> #[trigger] spec_found_from(
                                before,
                                world,
                                coords,
                                directions[j],
                                None,
                            );
                    let start = (Port { coords, direction: directions[i] }).spec_facing(
                        world.dimensions,
                    ).unwrap();
                    let at = choose|at: Port| #[trigger]
                        world.reaches(blocked, start, at) && anchored(before, world, at, other);
                    if i != toward_a && i != toward_b {
                        assert(spec_leads_nowhere(world, coords, directions[i]));
                        crate::logic::world::lemma_reach_from_non_wire(world, blocked, start, at);
                    }
                },
                None => {
                    assert(spec_found_from(before, world, coords, directions[toward_a], None));
                },
            }
        }
    }
    let cleared = before.without_group(group);
    let signal = before.groups[group].signal;
    assert forall|p: Port, t: PortType|
        #![trigger cleared.group_of(p, t)]
        cleared.group_of(p, t) == if before.group_of(p, t) == Some(group) {
            None
        } else {
            before.group_of(p, t)
        } by {
        match t {
            PortType::Input => {},
            PortType::Output => {},
        }
    }
    assert(cleared.inv()) by {
        assert forall|p: Port| #[trigger]
            cleared.input_groups.contains_key(p) implies cleared.groups.contains_key(
            cleared.input_groups[p],
        ) by {
            assert(before.input_groups.contains_key(p));
        }
        assert forall|p: Port| #[trigger]
            cleared.output_groups.contains_key(p) implies cleared.groups.contains_key(
            cleared.output_groups[p],
        ) by {
            assert(before.output_groups.contains_key(p));
        }
    }
    assert forall|p: Port, t: PortType|
        (world.reaches(blocked, a, p) || world.reaches(blocked, b, p)) && world.connection(p)
            == Some(LogicConnection::Port(t)) implies (#[trigger] cleared.group_of(
        p,
        t,
    )).is_none() by {
        assert(spec_on_either_side(world, coords, a, b, p, t));
        assert(before.group_of(p, t) == Some(group));
    }
    law_split(
        cleared,
        world,
        signal,
        coords,
        directions,
        a,
        b,
        toward_a,
        toward_b,
        port_a,
        port_b,
    );
    let group_a = before.next_group_id;
    let group_b = (before.next_group_id + 1) as usize;
    assert(cleared.groups.dom() =~= before.groups.dom().remove(group));
    assert forall|p: Port, t: PortType|
        #![trigger after.group_of(p, t)]
        before.group_of(p, t).is_some() && before.group_of(p, t) != Some(
            group,
        ) implies after.group_of(p, t) == before.group_of(p, t) by {
        assert(cleared.group_of(p, t) == before.group_of(p, t));
    }
    assert forall|t: PortType|
        #![trigger after.ports_of(group_a, t)]
        after.ports_of(group_a, t).disjoint(after.ports_of(group_b, t)) && after.ports_of(
            group_a,
            t,
        ) + after.ports_of(group_b, t) == before.ports_of(group, t) by {
        assert forall|p: Port|
            (after.ports_of(group_a, t) + after.ports_of(group_b, t)).contains(p)
                <==> before.ports_of(group, t).contains(p) by {
            assert(after.ports_of(group_a, t).contains(p) <==> spec_ports_reached(
                world,
                blocked,
                a,
            ).contains((p, t)));
            assert(after.ports_of(group_b, t).contains(p) <==> spec_ports_reached(
                world,
                blocked,
                b,
            ).contains((p, t)));
            if before.ports_of(group, t).contains(p) {
                assert(before.group_of(p, t) == Some(group));
                assert(spec_on_either_side(world, coords, a, b, p, t));
            }
            if spec_ports_reached(world, blocked, a).contains((p, t)) || spec_ports_reached(
                world,
                blocked,
                b,
            ).contains((p, t)) {
                assert(spec_on_either_side(world, coords, a, b, p, t));
                assert(before.group_of(p, t) == Some(group));
            }
        }
        assert(after.ports_of(group_a, t) + after.ports_of(group_b, t) =~= before.ports_of(
            group,
            t,
        ));
        assert forall|p: Port|
            !(after.ports_of(group_a, t).contains(p) && after.ports_of(group_b, t).contains(p)) by {
            assert(!(#[trigger] after.ports_of(group_a, t).contains(p) && after.ports_of(
                group_b,
                t,
            ).contains(p)));
        }
    }
    assert forall|p: Port, t: PortType|
        #![trigger after.group_of(p, t)]
        after.group_of(p, t).is_some() <==> before.group_of(p, t).is_some() by {
        if before.group_of(p, t) == Some(group) {
            assert(spec_on_either_side(world, coords, a, b, p, t));
            if world.reaches(blocked, a, p) {
                assert(spec_ports_reached(world, blocked, a).contains((p, t)));
                assert(after.ports_of(group_a, t).contains(p));
            } else {
                assert(spec_ports_reached(world, blocked, b).contains((p, t)));
                assert(after.ports_of(group_b, t).contains(p));
            }
        } else if before.group_of(p, t).is_some() {
            assert(after.group_of(p, t) == before.group_of(p, t));
        } else if after.group_of(p, t).is_some() {
            assert(cleared.group_of(p, t).is_none());
            if spec_ports_reached(world, blocked, a).contains((p, t)) || spec_ports_reached(
                world,
                blocked,
                b,
            ).contains((p, t)) {
                assert(spec_on_either_side(world, coords, a, b, p, t));
            }
        }
    }
}

/// Removing a logic block that is a wire and nothing else, and that alone connects two
/// networks, splits its group in two: what `law_split_by_removal` says holds of the graph
/// that `remove_logic_block` leaves.
pub proof fn law_split_by_removing_block(
    before: LogicGraphView,
    after: LogicGraphView,
    world: LogicWorld,
    logic_block: &LogicBlock,
    rotation: BlockFace,
    coords: BlockCoordinate,
    group: usize,
    a: Port,
    b: Port,
    toward_a: int,
    toward_b: int,
    port_a: (Port, PortType),
    port_b: (Port, PortType),
)
    requires
        before.inv(),
        before.next_group_id + 2 <= usize::MAX,
        logic_block.spec_faces_with(Some(LogicConnection::Port(PortType::Input))).len() == 0,
        logic_block.spec_faces_with(Some(LogicConnection::Port(PortType::Output))).len() == 0,
        spec_block_removed(before, after, world, logic_block, rotation, coords),
        spec_sole_connector(
            before,
            world,
            coords,
            logic_block.spec_directions_with(Some(LogicConnection::Wire), rotation),
            group,
            a,
            b,
            toward_a,
            toward_b,
        ),
        spec_ports_reached(world, Port::spec_all_for(coords), a).contains(port_a),
        spec_ports_reached(world, Port::spec_all_for(coords), b).contains(port_b),
    ensures
        ({
            let blocked = Port::spec_all_for(coords);
            let group_a = before.next_group_id;
            let group_b = (before.next_group_id + 1) as usize;
            &&& after.next_group_id == before.next_group_id + 2
            &&& after.groups.dom() == before.groups.dom().remove(group).insert(group_a).insert(
                group_b,
            )
            &&& !after.groups.contains_key(group)
            &&& !before.groups.contains_key(group_a)
            &&& !before.groups.contains_key(group_b)
            &&& after.groups[group_a].signal == before.groups[group].signal
            &&& after.groups[group_b].signal == before.groups[group].signal
            &&& forall|p: Port, t: PortType|
                #[trigger] after.ports_of(group_a, t).contains(p) <==> spec_ports_reached(
                    world,
                    blocked,
                    a,
                ).contains((p, t))
            &&& forall|p: Port, t: PortType|
                #[trigger] after.ports_of(group_b, t).contains(p) <==> spec_ports_reached(
                    world,
                    blocked,
                    b,
                ).contains((p, t))
            &&& forall|t: PortType|
                #![trigger after.ports_of(group_a, t)]
                after.ports_of(group_a, t).disjoint(after.ports_of(group_b, t)) && after.ports_of(
                    group_a,
                    t,
                ) + after.ports_of(group_b, t) == before.ports_of(group, t)
            &&& forall|other: usize|
                other != group && #[trigger] before.groups.contains_key(other)
                    ==> after.groups.contains_key(other) && after.groups[other]
                    == before.groups[other]
            &&& forall|p: Port, t: PortType|
                #![trigger after.group_of(p, t)]
                before.group_of(p, t).is_some() && before.group_of(p, t) != Some(group)
                    ==> after.group_of(p, t) == before.group_of(p, t)
            &&& forall|p: Port, t: PortType|
                #![trigger after.group_of(p, t)]
                after.group_of(p, t).is_some() <==> before.group_of(p, t).is_some()
        }),
{
    let inputs = logic_block.spec_directions_with(
        Some(LogicConnection::Port(PortType::Input)),
        rotation,
    );
    let outputs = logic_block.spec_directions_with(
        Some(LogicConnection::Port(PortType::Output)),
        rotation,
    );
    let directions = logic_block.spec_directions_with(Some(LogicConnection::Wire), rotation);
    assert(inputs.len() == 0 && outputs.len() == 0);
    assert(before.ports_removed(world.dimensions, coords, inputs, PortType::Input) == before);
    assert(before.ports_removed(world.dimensions, coords, outputs, PortType::Output) == before);
    assert(spec_wire_removed(before, after, world, coords, directions));
    law_split_by_removal(
        before,
        after,
        world,
        coords,
        directions,
        group,
        a,
        b,
        toward_a,
        toward_b,
        port_a,
        port_b,
    );
}

/// A wire block that is a wire and nothing else, placed between two groups, makes one group
/// of them: what `law_merge` says holds of the graph that `add_logic_block` leaves.
pub proof fn law_merge_by_adding_block(
    graph: &LogicGraph,
    after: LogicGraphView,
    world: LogicWorld,
    logic_block: &LogicBlock,
    rotation: BlockFace,
    coords: BlockCoordinate,
    a: usize,
    b: usize,
    toward_a: int,
    toward_b: int,
)
    requires
        graph.wf(),
        a != b,
        graph@.groups.contains_key(a),
        graph@.groups.contains_key(b),
        logic_block.spec_faces_with(Some(LogicConnection::Port(PortType::Input))).len() == 0,
        logic_block.spec_faces_with(Some(LogicConnection::Port(PortType::Output))).len() == 0,
        spec_block_added(graph@, after, world, logic_block, rotation, coords),
        forall|i: int, found: Option<usize>|
            0 <= i < logic_block.spec_directions_with(
                Some(LogicConnection::Wire),
                rotation,
            ).len() && #[trigger] spec_found_from(
                graph@,
                world,
                coords,
                logic_block.spec_directions_with(Some(LogicConnection::Wire), rotation)[i],
                found,
            ) ==> found.is_none() || found == Some(a) || found == Some(b),
        0 <= toward_a < logic_block.spec_directions_with(
            Some(LogicConnection::Wire),
            rotation,
        ).len(),
        0 <= toward_b < logic_block.spec_directions_with(
            Some(LogicConnection::Wire),
            rotation,
        ).len(),
        forall|found: Option<usize>| #[trigger]
            spec_found_from(
                graph@,
                world,
                coords,
                logic_block.spec_directions_with(Some(LogicConnection::Wire), rotation)[toward_a],
                found,
            ) ==> found == Some(a),
        forall|found: Option<usize>| #[trigger]
            spec_found_from(
                graph@,
                world,
                coords,
                logic_block.spec_directions_with(Some(LogicConnection::Wire), rotation)[toward_b],
                found,
            ) ==> found == Some(b),
    ensures
        ({
            let merged = graph@.next_group_id;
            &&& after == graph@.merged(Set::<usize>::empty().insert(a).insert(b), coords)
            &&& after.groups.contains_key(merged)
            &&& !after.groups.contains_key(a)
            &&& !after.groups.contains_key(b)
            &&& after.groups[merged].recent_wire_coords == Some(coords)
            &&& after.groups[merged].signal == if graph@.groups[a].signal != 0
                || graph@.groups[b].signal != 0 {
                1i32
            } else {
                0i32
            }
            &&& forall|t: PortType|
                #![trigger after.ports_of(merged, t)]
                {
                    &&& after.ports_of(merged, t) == graph@.ports_of(a, t) + graph@.ports_of(b, t)
                    &&& graph@.ports_of(a, t).disjoint(graph@.ports_of(b, t))
                    &&& after.ports_of(merged, t).len() == graph@.ports_of(a, t).len()
                        + graph@.ports_of(b, t).len()
                }
            &&& forall|g: usize|
                g != a && g != b && graph@.groups.contains_key(g) ==> #[trigger] after.groups.contains_key(
                    g,
                ) && after.groups[g] == graph@.groups[g]
            &&& forall|g: usize, t: PortType|
                g != a && g != b && g != merged ==> #[trigger] after.ports_of(g, t)
                    == graph@.ports_of(g, t)
        }),
{
    let before = graph@;
    let inputs = logic_block.spec_directions_with(
        Some(LogicConnection::Port(PortType::Input)),
        rotation,
    );
    let outputs = logic_block.spec_directions_with(
        Some(LogicConnection::Port(PortType::Output)),
        rotation,
    );
    let directions = logic_block.spec_directions_with(Some(LogicConnection::Wire), rotation);
    let (with_inputs, with_outputs) = choose|
        with_inputs: LogicGraphView,
        with_outputs: LogicGraphView,
    |
        #![trigger spec_ports_placed(
            with_inputs,
            with_outputs,
            world,
            coords,
            outputs,
            PortType::Output,
        )]
        {
            &&& spec_ports_placed(before, with_inputs, world, coords, inputs, PortType::Input)
            &&& spec_ports_placed(
                with_inputs,
                with_outputs,
                world,
                coords,
                outputs,
                PortType::Output,
            )
            &&& spec_wire_placed(with_outputs, after, world, coords, directions)
        };
    assert(inputs.len() == 0 && outputs.len() == 0);
    assert(with_inputs == before && with_outputs == before);
    law_merge(graph, after, world, coords, directions, a, b, toward_a, toward_b);
}

/// The ports of the block at `coords` that point along `directions` and face something
/// inside the structure: the ports that are placed when the block is added.
pub open spec fn spec_placed(
    dimensions: BlockCoordinate,
    coords: BlockCoordinate,
    directions: Seq<BlockDirection>,
    port_type: PortType,
) -> Set<(Port, PortType)> {
    Set::new(
        |pair: (Port, PortType)|
            pair.1 == port_type && pair.0.coords == coords && directions.contains(pair.0.direction)
                && pair.0.spec_facing(dimensions).is_some(),
    )
}

/// Whether `now` is `before` with nothing changed but this: the ports `placed` of the block
/// at `coords` may have joined groups, either groups of `before` or new groups that hold one
/// such port each and nothing else.
pub open spec fn spec_extends(
    before: LogicGraphView,
    now: LogicGraphView,
    coords: BlockCoordinate,
    placed: Set<(Port, PortType)>,
) -> bool {
    &&& now.inv()
    &&& now.next_group_id >= before.next_group_id
    &&& forall|g: usize| #[trigger]
        before.groups.contains_key(g) ==> now.groups.contains_key(g) && now.groups[g]
            == before.groups[g]
    &&& forall|g: usize|
        #![trigger now.groups.contains_key(g)]
        now.groups.contains_key(g) && !before.groups.contains_key(g) ==> {
            &&& g >= before.next_group_id
            &&& now.groups[g].recent_wire_coords.is_none()
            &&& exists|p: Port, t: PortType|
                #![trigger now.group_of(p, t)]
                {
                    &&& p.coords == coords
                    &&& now.group_of(p, t) == Some(g)
                    &&& forall|q: Port, u: PortType|
                        #![trigger now.group_of(q, u)]
                        now.group_of(q, u) == Some(g) ==> q == p && u == t
                }
        }
    &&& forall|p: Port, t: PortType|
        #![trigger now.group_of(p, t)]
        p.coords != coords ==> now.group_of(p, t) == before.group_of(p, t)
    &&& forall|p: Port, t: PortType|
        #![trigger now.group_of(p, t)]
        p.coords == coords && now.group_of(p, t).is_some() ==> placed.contains((p, t))
}

/// Taking a port of the block out of an extended graph leaves an extended graph without
/// that port.
pub proof fn lemma_extends_port_removed(
    before: LogicGraphView,
    now: LogicGraphView,
    coords: BlockCoordinate,
    placed: Set<(Port, PortType)>,
    port: Port,
    port_type: PortType,
)
    requires
        before.inv(),
        before.no_dangling(),
        forall|p: Port, t: PortType|
            #![trigger before.group_of(p, t)]
            p.coords == coords ==> before.group_of(p, t).is_none(),
        spec_extends(before, now, coords, placed),
        port.coords == coords,
    ensures
        spec_extends(
            before,
            now.port_removed(port, port_type),
            coords,
            placed.remove((port, port_type)),
        ),
        now.port_removed(port, port_type).group_of(port, port_type).is_none(),
{
    let after = now.port_removed(port, port_type);
    let fewer = placed.remove((port, port_type));
    match now.group_of(port, port_type) {
        None => {
            assert forall|p: Port, t: PortType|
                #![trigger after.group_of(p, t)]
                p.coords == coords && after.group_of(p, t).is_some() implies fewer.contains(
                (p, t),
            ) by {
                assert(placed.contains((p, t)));
            }
        },
        Some(group) => {
            let detached = now.without_port(port, port_type);
            assert forall|p: Port, t: PortType|
                #![trigger detached.group_of(p, t)]
                detached.group_of(p, t) == if p == port && t == port_type {
                    None
                } else {
                    now.group_of(p, t)
                } by {
                match (t, port_type) {
                    (PortType::Input, PortType::Input) => {},
                    (PortType::Input, PortType::Output) => {},
                    (PortType::Output, PortType::Input) => {},
                    (PortType::Output, PortType::Output) => {},
                }
            }
            match port_type {
                PortType::Input => {
                    assert(now.input_groups.contains_key(port));
                },
                PortType::Output => {
                    assert(now.output_groups.contains_key(port));
                },
            }
            assert(now.groups.contains_key(group));
            if before.groups.contains_key(group) {
                // A group of before has what it had before, so it stays.
                if before.has_port(group) {
                    let (q, u) = choose|q: Port, u: PortType| #[trigger]
                        before.ports_of(group, u).contains(q);
                    assert(before.group_of(q, u) == Some(group));
                    assert(q.coords != coords);
                    assert(now.group_of(q, u) == Some(group));
                    assert(detached.group_of(q, u) == Some(group));
                    assert(detached.ports_of(group, u).contains(q));
                    assert(detached.has_port(group));
                }
                assert(after == detached);
                assert forall|g: usize|
                    #![trigger after.groups.contains_key(g)]
                    after.groups.contains_key(g) && !before.groups.contains_key(g) implies {
                    &&& g >= before.next_group_id
                    &&& after.groups[g].recent_wire_coords.is_none()
                    &&& exists|p: Port, t: PortType|
                        #![trigger after.group_of(p, t)]
                        {
                            &&& p.coords == coords
                            &&& after.group_of(p, t) == Some(g)
                            &&& forall|q: Port, u: PortType|
                                #![trigger after.group_of(q, u)]
                                after.group_of(q, u) == Some(g) ==> q == p && u == t
                        }
                } by {
                    assert(now.groups.contains_key(g));
                    let (p, t) = choose|p: Port, t: PortType|
                        #![trigger now.group_of(p, t)]
                        {
                            &&& p.coords == coords
                            &&& now.group_of(p, t) == Some(g)
                            &&& forall|q: Port, u: PortType|
                                #![trigger now.group_of(q, u)]
                                now.group_of(q, u) == Some(g) ==> q == p && u == t
                        };
                    assert(after.group_of(p, t) == Some(g));
                    assert forall|q: Port, u: PortType|
                        #![trigger after.group_of(q, u)]
                        after.group_of(q, u) == Some(g) implies q == p && u == t by {
                        assert(now.group_of(q, u) == Some(g));
                    }
                }
                assert forall|p: Port, t: PortType|
                    #![trigger after.group_of(p, t)]
                    p.coords == coords && after.group_of(p, t).is_some() implies fewer.contains(
                    (p, t),
                ) by {
                    assert(now.group_of(p, t).is_some());
                    assert(placed.contains((p, t)));
                }
                assert forall|p: Port, t: PortType|
                    #![trigger after.group_of(p, t)]
                    p.coords != coords implies after.group_of(p, t) == before.group_of(p, t) by {
                    assert(now.group_of(p, t) == before.group_of(p, t));
                }
                assert(after.inv());
            } else {
                // A new group holds this port and nothing else, so it goes with the port.
                let (p, t) = choose|p: Port, t: PortType|
                    #![trigger now.group_of(p, t)]
                    {
                        &&& p.coords == coords
                        &&& now.group_of(p, t) == Some(group)
                        &&& forall|q: Port, u: PortType|
                            #![trigger now.group_of(q, u)]
                            now.group_of(q, u) == Some(group) ==> q == p && u == t
                    };
                assert(now.group_of(port, port_type) == Some(group));
                assert(p == port && t == port_type);
                assert(!detached.has_port(group)) by {
                    if detached.has_port(group) {
                        let (q, u) = choose|q: Port, u: PortType| #[trigger]
                            detached.ports_of(group, u).contains(q);
                        assert(detached.group_of(q, u) == Some(group));
                        assert(now.group_of(q, u) == Some(group));
                    }
                }
                assert(after == detached.without_group(group));
                assert forall|q: Port, u: PortType|
                    #![trigger after.group_of(q, u)]
                    after.group_of(q, u) == detached.group_of(q, u) by {
                    match u {
                        PortType::Input => {
                            if detached.input_groups.contains_key(q) {
                                assert(detached.group_of(q, u) == Some(detached.input_groups[q]));
                                assert(now.group_of(q, u) == Some(detached.input_groups[q]));
                            }
                        },
                        PortType::Output => {
                            if detached.output_groups.contains_key(q) {
                                assert(detached.group_of(q, u) == Some(detached.output_groups[q]));
                                assert(now.group_of(q, u) == Some(detached.output_groups[q]));
                            }
                        },
                    }
                }
                assert forall|g: usize|
                    #![trigger after.groups.contains_key(g)]
                    after.groups.contains_key(g) && !before.groups.contains_key(g) implies {
                    &&& g >= before.next_group_id
                    &&& after.groups[g].recent_wire_coords.is_none()
                    &&& exists|p: Port, t: PortType|
                        #![trigger after.group_of(p, t)]
                        {
                            &&& p.coords == coords
                            &&& after.group_of(p, t) == Some(g)
                            &&& forall|q: Port, u: PortType|
                                #![trigger after.group_of(q, u)]
                                after.group_of(q, u) == Some(g) ==> q == p && u == t
                        }
                } by {
                    assert(now.groups.contains_key(g));
                    let (only, kind) = choose|p: Port, t: PortType|
                        #![trigger now.group_of(p, t)]
                        {
                            &&& p.coords == coords
                            &&& now.group_of(p, t) == Some(g)
                            &&& forall|q: Port, u: PortType|
                                #![trigger now.group_of(q, u)]
                                now.group_of(q, u) == Some(g) ==> q == p && u == t
                        };
                    assert(after.group_of(only, kind) == Some(g));
                    assert forall|q: Port, u: PortType|
                        #![trigger after.group_of(q, u)]
                        after.group_of(q, u) == Some(g) implies q == only && u == kind by {
                        assert(now.group_of(q, u) == Some(g));
                    }
                }
                assert forall|q: Port, u: PortType|
                    #![trigger after.group_of(q, u)]
                    q.coords == coords && after.group_of(q, u).is_some() implies fewer.contains(
                    (q, u),
                ) by {
                    assert(now.group_of(q, u).is_some());
                    assert(placed.contains((q, u)));
                }
                assert forall|q: Port, u: PortType|
                    #![trigger after.group_of(q, u)]
                    q.coords != coords implies after.group_of(q, u) == before.group_of(q, u) by {
                    assert(now.group_of(q, u) == before.group_of(q, u));
                }
                assert(after.inv()) by {
                    assert forall|q: Port| #[trigger]
                        after.input_groups.contains_key(q) implies after.groups.contains_key(
                        after.input_groups[q],
                    ) by {
                        assert(after.group_of(q, PortType::Input) == detached.group_of(
                            q,
                            PortType::Input,
                        ));
                        assert(now.input_groups.contains_key(q));
                    }
                    assert forall|q: Port| #[trigger]
                        after.output_groups.contains_key(q) implies after.groups.contains_key(
                        after.output_groups[q],
                    ) by {
                        assert(after.group_of(q, PortType::Output) == detached.group_of(
                            q,
                            PortType::Output,
                        ));
                        assert(now.output_groups.contains_key(q));
                    }
                }
            }
        },
    }
}

/// Placing a port of the block in an extended graph leaves an extended graph.
pub proof fn lemma_extends_port_placed(
    before: LogicGraphView,
    now: LogicGraphView,
    after: LogicGraphView,
    world: LogicWorld,
    coords: BlockCoordinate,
    placed: Set<(Port, PortType)>,
    port: Port,
    port_type: PortType,
)
    requires
        before.inv(),
        before.no_dangling(),
        forall|p: Port, t: PortType|
            #![trigger before.group_of(p, t)]
            p.coords == coords ==> before.group_of(p, t).is_none(),
        spec_extends(before, now, coords, placed),
        now.next_group_id < usize::MAX,
        port.coords == coords,
        spec_port_placed(now, after, world, port, port_type),
    ensures
        spec_extends(
            before,
            after,
            coords,
            if port.spec_facing(world.dimensions).is_some() {
                placed.insert((port, port_type))
            } else {
                placed
            },
        ),
        after.next_group_id <= now.next_group_id + 1,
{
    match port.spec_facing(world.dimensions) {
        None => {},
        Some(start) => {
            let more = placed.insert((port, port_type));
            let cleaned = now.port_removed(port, port_type);
            lemma_extends_port_removed(before, now, coords, placed, port, port_type);
            let found = choose|found: Option<usize>| #[trigger]
                is_search_result(cleaned, world, Port::spec_all_for(coords), start, found)
                    && after == cleaned.port_placed(port, port_type, found);
            assert(cleaned.next_group_id == now.next_group_id);
            assert forall|p: Port, t: PortType|
                #![trigger after.group_of(p, t)]
                after.group_of(p, t) == if p == port && t == port_type {
                    after.group_of(port, port_type)
                } else {
                    cleaned.group_of(p, t)
                } by {
                match (t, port_type) {
                    (PortType::Input, PortType::Input) => {},
                    (PortType::Input, PortType::Output) => {},
                    (PortType::Output, PortType::Input) => {},
                    (PortType::Output, PortType::Output) => {},
                }
            }
            match found {
                Some(group) => {
                    let at = choose|at: Port| #[trigger]
                        world.reaches(Port::spec_all_for(coords), start, at) && anchored(
                            cleaned,
                            world,
                            at,
                            group,
                        );
                    crate::logic::world::lemma_reach_not_blocked(
                        world,
                        Port::spec_all_for(coords),
                        start,
                        at,
                    );
                    assert(at.coords != coords);
                    assert(before.groups.contains_key(group)) by {
                        match world.connection(at) {
                            Some(LogicConnection::Port(t)) => {
                                assert(cleaned.group_of(at, t) == Some(group));
                                assert(before.group_of(at, t) == Some(group));
                                match t {
                                    PortType::Input => {
                                        assert(before.input_groups.contains_key(at));
                                    },
                                    PortType::Output => {
                                        assert(before.output_groups.contains_key(at));
                                    },
                                }
                            },
                            Some(LogicConnection::Wire) => {
                                assert(cleaned.groups.contains_key(group));
                            },
                            None => {},
                        }
                    }
                    assert(after.group_of(port, port_type) == Some(group)) by {
                        match port_type {
                            PortType::Input => {},
                            PortType::Output => {},
                        }
                    }
                    assert(after.groups == cleaned.groups);
                },
                None => {
                    let fresh = cleaned.next_group_id;
                    assert(!cleaned.groups.contains_key(fresh));
                    assert(after.group_of(port, port_type) == Some(fresh)) by {
                        match port_type {
                            PortType::Input => {},
                            PortType::Output => {},
                        }
                    }
                    assert forall|q: Port, u: PortType|
                        #![trigger after.group_of(q, u)]
                        after.group_of(q, u) == Some(fresh) implies q == port && u == port_type by {
                        if !(q == port && u == port_type) {
                            assert(cleaned.group_of(q, u) == Some(fresh));
                            match u {
                                PortType::Input => {
                                    assert(cleaned.input_groups.contains_key(q));
                                },
                                PortType::Output => {
                                    assert(cleaned.output_groups.contains_key(q));
                                },
                            }
                        }
                    }
                },
            }
            assert(after.inv()) by {
                assert forall|q: Port| #[trigger]
                    after.input_groups.contains_key(q) implies after.groups.contains_key(
                    after.input_groups[q],
                ) by {
                    if !(q == port && port_type == PortType::Input) {
                        assert(after.group_of(q, PortType::Input) == cleaned.group_of(
                            q,
                            PortType::Input,
                        ));
                        assert(cleaned.input_groups.contains_key(q));
                    } else {
                        assert(after.group_of(port, port_type).is_some());
                    }
                }
                assert forall|q: Port| #[trigger]
                    after.output_groups.contains_key(q) implies after.groups.contains_key(
                    after.output_groups[q],
                ) by {
                    if !(q == port && port_type == PortType::Output) {
                        assert(after.group_of(q, PortType::Output) == cleaned.group_of(
                            q,
                            PortType::Output,
                        ));
                        assert(cleaned.output_groups.contains_key(q));
                    } else {
                        assert(after.group_of(port, port_type).is_some());
                    }
                }
            }
            assert forall|g: usize|
                #![trigger after.groups.contains_key(g)]
                after.groups.contains_key(g) && !before.groups.contains_key(g) implies {
                &&& g >= before.next_group_id
                &&& after.groups[g].recent_wire_coords.is_none()
                &&& exists|p: Port, t: PortType|
                    #![trigger after.group_of(p, t)]
                    {
                        &&& p.coords == coords
                        &&& after.group_of(p, t) == Some(g)
                        &&& forall|q: Port, u: PortType|
                            #![trigger after.group_of(q, u)]
                            after.group_of(q, u) == Some(g) ==> q == p && u == t
                    }
            } by {
                if cleaned.groups.contains_key(g) {
                    let (p, t) = choose|p: Port, t: PortType|
                        #![trigger cleaned.group_of(p, t)]
                        {
                            &&& p.coords == coords
                            &&& cleaned.group_of(p, t) == Some(g)
                            &&& forall|q: Port, u: PortType|
                                #![trigger cleaned.group_of(q, u)]
                                cleaned.group_of(q, u) == Some(g) ==> q == p && u == t
                        };
                    assert(!(p == port && t == port_type));
                    assert(after.group_of(p, t) == Some(g));
                    assert forall|q: Port, u: PortType|
                        #![trigger after.group_of(q, u)]
                        after.group_of(q, u) == Some(g) implies q == p && u == t by {
                        if q == port && u == port_type {
                            // The port has joined a group of before, or a group that is new
                            // now; `g` is neither.
                            assert(after.group_of(port, port_type) == Some(g));
                        } else {
                            assert(cleaned.group_of(q, u) == Some(g));
                        }
                    }
                } else {
                    assert(found.is_none());
                    assert(g == cleaned.next_group_id);
                    assert(after.group_of(port, port_type) == Some(g));
                }
            }
            assert forall|p: Port, t: PortType|
                #![trigger after.group_of(p, t)]
                p.coords != coords implies after.group_of(p, t) == before.group_of(p, t) by {
                assert(cleaned.group_of(p, t) == before.group_of(p, t));
            }
            assert forall|p: Port, t: PortType|
                #![trigger after.group_of(p, t)]
                p.coords == coords && after.group_of(p, t).is_some() implies more.contains(
                (p, t),
            ) by {
                if !(p == port && t == port_type) {
                    assert(cleaned.group_of(p, t).is_some());
                    assert(placed.remove((port, port_type)).contains((p, t)));
                }
            }
            assert forall|g: usize| #[trigger] before.groups.contains_key(g) implies after.groups.contains_key(
                g,
            ) && after.groups[g] == before.groups[g] by {
                assert(cleaned.groups.contains_key(g));
            }
        },
    }
}

/// Placing ports of the block one after the other in an extended graph leaves an extended
/// graph.
pub proof fn lemma_extends_ports_placed(
    before: LogicGraphView,
    start: LogicGraphView,
    end: LogicGraphView,
    world: LogicWorld,
    coords: BlockCoordinate,
    placed: Set<(Port, PortType)>,
    directions: Seq<BlockDirection>,
    port_type: PortType,
)
    requires
        before.inv(),
        before.no_dangling(),
        forall|p: Port, t: PortType|
            #![trigger before.group_of(p, t)]
            p.coords == coords ==> before.group_of(p, t).is_none(),
        spec_extends(before, start, coords, placed),
        start.next_group_id + directions.len() <= usize::MAX,
        spec_ports_placed(start, end, world, coords, directions, port_type),
    ensures
        spec_extends(
            before,
            end,
            coords,
            placed + spec_placed(world.dimensions, coords, directions, port_type),
        ),
        end.next_group_id <= start.next_group_id + directions.len(),
    decreases directions.len(),
{
    let all = placed + spec_placed(world.dimensions, coords, directions, port_type);
    if directions.len() == 0 {
        assert(end == start);
        assert forall|p: Port, t: PortType|
            #![trigger end.group_of(p, t)]
            p.coords == coords && end.group_of(p, t).is_some() implies all.contains((p, t)) by {
            assert(placed.contains((p, t)));
        }
    } else {
        let shorter = directions.drop_last();
        let port = Port { coords, direction: directions.last() };
        let mid = choose|mid: LogicGraphView|
            spec_ports_placed(start, mid, world, coords, shorter, port_type)
                && #[trigger] spec_port_placed(mid, end, world, port, port_type);
        lemma_extends_ports_placed(before, start, mid, world, coords, placed, shorter, port_type);
        let so_far = placed + spec_placed(world.dimensions, coords, shorter, port_type);
        lemma_extends_port_placed(before, mid, end, world, coords, so_far, port, port_type);
        let next = if port.spec_facing(world.dimensions).is_some() {
            so_far.insert((port, port_type))
        } else {
            so_far
        };
        assert forall|pair: (Port, PortType)| next.contains(pair) implies all.contains(pair) by {
            if pair == (port, port_type) && port.spec_facing(world.dimensions).is_some() {
                assert(directions[directions.len() - 1] == port.direction);
                assert(directions.contains(pair.0.direction));
            } else if !placed.contains(pair) {
                assert(shorter.contains(pair.0.direction));
                let k = choose|k: int| 0 <= k < shorter.len() && shorter[k] == pair.0.direction;
                assert(directions[k] == pair.0.direction);
            }
        }
        assert forall|p: Port, t: PortType|
            #![trigger end.group_of(p, t)]
            p.coords == coords && end.group_of(p, t).is_some() implies all.contains((p, t)) by {
            assert(next.contains((p, t)));
        }
    }
}

/// Taking ports of the block out of an extended graph one after the other leaves an
/// extended graph without them.
pub proof fn lemma_extends_ports_removed(
    before: LogicGraphView,
    now: LogicGraphView,
    dimensions: BlockCoordinate,
    coords: BlockCoordinate,
    placed: Set<(Port, PortType)>,
    directions: Seq<BlockDirection>,
    port_type: PortType,
)
    requires
        before.inv(),
        before.no_dangling(),
        forall|p: Port, t: PortType|
            #![trigger before.group_of(p, t)]
            p.coords == coords ==> before.group_of(p, t).is_none(),
        spec_extends(before, now, coords, placed),
    ensures
        spec_extends(
            before,
            now.ports_removed(dimensions, coords, directions, port_type),
            coords,
            placed.difference(spec_placed(dimensions, coords, directions, port_type)),
        ),
    decreases directions.len(),
{
    let end = now.ports_removed(dimensions, coords, directions, port_type);
    let left = placed.difference(spec_placed(dimensions, coords, directions, port_type));
    if directions.len() == 0 {
        assert forall|p: Port, t: PortType|
            #![trigger end.group_of(p, t)]
            p.coords == coords && end.group_of(p, t).is_some() implies left.contains((p, t)) by {
            assert(placed.contains((p, t)));
            if spec_placed(dimensions, coords, directions, port_type).contains((p, t)) {
                assert(directions.contains(p.direction));
            }
        }
    } else {
        let shorter = directions.drop_last();
        let port = Port { coords, direction: directions.last() };
        let mid = now.ports_removed(dimensions, coords, shorter, port_type);
        lemma_extends_ports_removed(before, now, dimensions, coords, placed, shorter, port_type);
        let so_far = placed.difference(spec_placed(dimensions, coords, shorter, port_type));
        let next = if port.spec_facing(dimensions).is_some() {
            lemma_extends_port_removed(before, mid, coords, so_far, port, port_type);
            so_far.remove((port, port_type))
        } else {
            so_far
        };
        assert forall|pair: (Port, PortType)| next.contains(pair) implies left.contains(pair) by {
            if spec_placed(dimensions, coords, directions, port_type).contains(pair) {
                let k = choose|k: int|
                    0 <= k < directions.len() && directions[k] == pair.0.direction;
                if k < shorter.len() {
                    assert(shorter[k] == pair.0.direction);
                    assert(shorter.contains(pair.0.direction));
                } else {
                    assert(pair.0 == port);
                }
            }
        }
        assert forall|p: Port, t: PortType|
            #![trigger end.group_of(p, t)]
            p.coords == coords && end.group_of(p, t).is_some() implies left.contains((p, t)) by {
            assert(next.contains((p, t)));
        }
    }
}

/// A logic block has at most six faces of one role.
pub proof fn lemma_faces_below_len(
    logic_block: &LogicBlock,
    connection: Option<LogicConnection>,
    count: int,
)
    requires
        0 <= count,
    ensures
        logic_block.spec_faces_below(connection, count).len() <= count,
    decreases count,
{
    if count > 0 {
        lemma_faces_below_len(logic_block, connection, count - 1);
    }
}

/// Adding a block that has ports and no wire, and removing it again at once, restores the
/// graph.
///
/// `before` is a graph that does not know any port of the block at `coords`; the block
/// `logic_block` without wire faces is added there, which gives `added`, and removed again,
/// which gives `after`. `world` is the structure while the block is added; the structure
/// while it is removed has the same size. Then `after` has the groups of `before`, each as
/// it was, and every port is in the group it was in: the groups are the same by the ports
/// that belong to them. Only the ids that new groups will get have moved on.
pub proof fn law_add_remove_restores(
    before: LogicGraphView,
    added: LogicGraphView,
    after: LogicGraphView,
    world: LogicWorld,
    world_removed: LogicWorld,
    logic_block: &LogicBlock,
    rotation: BlockFace,
    coords: BlockCoordinate,
)
    requires
        before.inv(),
        before.no_dangling(),
        before.next_group_id + 12 <= usize::MAX,
        world_removed.dimensions == world.dimensions,
        forall|p: Port, t: PortType|
            #![trigger before.group_of(p, t)]
            p.coords == coords ==> before.group_of(p, t).is_none(),
        logic_block.spec_faces_with(Some(LogicConnection::Wire)).len() == 0,
        spec_block_added(before, added, world, logic_block, rotation, coords),
        spec_block_removed(added, after, world_removed, logic_block, rotation, coords),
    ensures
        after.groups == before.groups,
        after.input_groups == before.input_groups,
        after.output_groups == before.output_groups,
        forall|g: usize, t: PortType| after.ports_of(g, t) == before.ports_of(g, t),
        after.next_group_id >= before.next_group_id,
{
    let inputs = logic_block.spec_directions_with(
        Some(LogicConnection::Port(PortType::Input)),
        rotation,
    );
    let outputs = logic_block.spec_directions_with(
        Some(LogicConnection::Port(PortType::Output)),
        rotation,
    );
    let wires = logic_block.spec_directions_with(Some(LogicConnection::Wire), rotation);
    lemma_faces_below_len(logic_block, Some(LogicConnection::Port(PortType::Input)), 6);
    lemma_faces_below_len(logic_block, Some(LogicConnection::Port(PortType::Output)), 6);
    assert(wires.len() == 0);
    let (with_inputs, with_outputs) = choose|
        with_inputs: LogicGraphView,
        with_outputs: LogicGraphView,
    |
        #![trigger spec_ports_placed(
            with_inputs,
            with_outputs,
            world,
            coords,
            outputs,
            PortType::Output,
        )]
        {
            &&& spec_ports_placed(before, with_inputs, world, coords, inputs, PortType::Input)
            &&& spec_ports_placed(
                with_inputs,
                with_outputs,
                world,
                coords,
                outputs,
                PortType::Output,
            )
            &&& spec_wire_placed(with_outputs, added, world, coords, wires)
        };
    let none = Set::<(Port, PortType)>::empty();
    let placed_inputs = spec_placed(world.dimensions, coords, inputs, PortType::Input);
    let placed_outputs = spec_placed(world.dimensions, coords, outputs, PortType::Output);
    assert(spec_extends(before, before, coords, none));
    lemma_extends_ports_placed(
        before,
        before,
        with_inputs,
        world,
        coords,
        none,
        inputs,
        PortType::Input,
    );
    lemma_extends_ports_placed(
        before,
        with_inputs,
        with_outputs,
        world,
        coords,
        none + placed_inputs,
        outputs,
        PortType::Output,
    );
    assert(added == with_outputs);
    let all = none + placed_inputs + placed_outputs;
    let without_inputs = added.ports_removed(world.dimensions, coords, inputs, PortType::Input);
    lemma_extends_ports_removed(
        before,
        added,
        world.dimensions,
        coords,
        all,
        inputs,
        PortType::Input,
    );
    lemma_extends_ports_removed(
        before,
        without_inputs,
        world.dimensions,
        coords,
        all.difference(placed_inputs),
        outputs,
        PortType::Output,
    );
    let left = all.difference(placed_inputs).difference(placed_outputs);
    assert(left =~= none);
    assert(after == without_inputs.ports_removed(
        world.dimensions,
        coords,
        outputs,
        PortType::Output,
    ));
    assert(spec_extends(before, after, coords, left));
    // With no port of the block left, nothing is left of what was added.
    assert forall|p: Port, t: PortType| #![trigger after.group_of(p, t)] after.group_of(p, t)
        == before.group_of(p, t) by {
        if p.coords == coords && after.group_of(p, t).is_some() {
            assert(left.contains((p, t)));
        }
    }
    assert forall|g: usize| after.groups.contains_key(g) implies before.groups.contains_key(
        g,
    ) by {
        if !before.groups.contains_key(g) {
            let (p, t) = choose|p: Port, t: PortType|
                #![trigger after.group_of(p, t)]
                {
                    &&& p.coords == coords
                    &&& after.group_of(p, t) == Some(g)
                    &&& forall|q: Port, u: PortType|
                        #![trigger after.group_of(q, u)]
                        after.group_of(q, u) == Some(g) ==> q == p && u == t
                };
            assert(after.group_of(p, t) == before.group_of(p, t));
        }
    }
    assert(after.groups =~= before.groups);
    assert(after.input_groups =~= before.input_groups) by {
        assert forall|p: Port|
            after.input_groups.contains_key(p) == before.input_groups.contains_key(p) && (
            after.input_groups.contains_key(p) ==> after.input_groups[p]
                == before.input_groups[p]) by {
            assert(after.group_of(p, PortType::Input) == before.group_of(p, PortType::Input));
        }
    }
    assert(after.output_groups =~= before.output_groups) by {
        assert forall|p: Port|
            after.output_groups.contains_key(p) == before.output_groups.contains_key(p) && (
            after.output_groups.contains_key(p) ==> after.output_groups[p]
                == before.output_groups[p]) by {
            assert(after.group_of(p, PortType::Output) == before.group_of(p, PortType::Output));
        }
    }
    assert forall|g: usize, t: PortType| after.ports_of(g, t) == before.ports_of(g, t) by {
        match t {
            PortType::Input => {},
            PortType::Output => {},
        }
        assert(after.ports_of(g, t) =~= before.ports_of(g, t));
    }
}

} // verus!
