//! A search that does not pass a block does not depend on what that block is.

use vstd::prelude::*;

use crate::block::block_direction::BlockDirection;
use crate::block::block_face::BlockFace;
use crate::logic::edit::{
    spec_block_removed, spec_first_wire, spec_found_by_faces, spec_found_from, spec_group_of_wire,
    spec_ports_reached, spec_wire_removed,
};
use crate::logic::logic_graph::LogicGraphView;
use crate::logic::search::{anchored, is_search_result, spec_marks_after};
use crate::logic::world::{lemma_reach_not_blocked, LogicWorld};
use crate::logic::{LogicBlock, LogicConnection, Port, PortType};
use crate::structure::coordinates::BlockCoordinate;

verus! {

/// Whether two structures of one size have the same logic connections on every block but
/// the one at `coords`.
pub open spec fn spec_same_around(a: LogicWorld, b: LogicWorld, coords: BlockCoordinate) -> bool {
    &&& a.dimensions == b.dimensions
    &&& forall|p: Port| p.coords != coords ==> #[trigger] a.connection(p) == b.connection(p)
}

/// Whether every port of the block at `coords` is blocked.
pub open spec fn spec_blocks(blocked: Set<Port>, coords: BlockCoordinate) -> bool {
    forall|p: Port| p.coords == coords ==> #[trigger] blocked.contains(p)
}

/// What is reached in one world is reached in the other.
pub proof fn lemma_reach_other_world(
    a: LogicWorld,
    b: LogicWorld,
    coords: BlockCoordinate,
    blocked: Set<Port>,
    start: Port,
    target: Port,
)
    requires
        spec_same_around(a, b, coords),
        spec_blocks(blocked, coords),
        a.reaches(blocked, start, target),
    ensures
        b.reaches(blocked, start, target),
        a.connection(target) == b.connection(target),
{
    let path = choose|path: Seq<Port>|
        #[trigger] a.is_path(blocked, path) && path[0] == start && path.last() == target;
    assert forall|i: int| 0 <= i < path.len() implies path[i].coords != coords by {
        assert(!blocked.contains(path[i]));
    }
    assert forall|i: int| 0 <= i < path.len() - 1 implies b.wire_step(
        blocked,
        path[i],
        #[trigger] path[i + 1],
    ) by {
        assert(a.wire_step(blocked, path[i], path[i + 1]));
        let exit = Port { coords: path[i].coords, direction: path[i + 1].direction.spec_inverse() };
        assert(path[i].coords != coords);
        assert(a.connection(path[i]) == b.connection(path[i]));
        assert(a.connection(exit) == b.connection(exit));
    }
    assert(b.is_path(blocked, path));
    assert(target == path[path.len() - 1]);
    assert(a.connection(target) == b.connection(target));
}

/// A search finds the same in both worlds and leaves the same marks.
pub proof fn lemma_search_other_world(
    a: LogicWorld,
    b: LogicWorld,
    coords: BlockCoordinate,
    blocked: Set<Port>,
    start: Port,
)
    requires
        spec_same_around(a, b, coords),
        spec_blocks(blocked, coords),
    ensures
        spec_ports_reached(a, blocked, start) == spec_ports_reached(b, blocked, start),
        spec_first_wire(a, blocked, start) == spec_first_wire(b, blocked, start),
        Set::new(|p: Port| spec_marks_after(a, blocked, start, p)) == Set::new(
            |p: Port| spec_marks_after(b, blocked, start, p),
        ),
        spec_blocks(Set::new(|p: Port| spec_marks_after(a, blocked, start, p)), coords),
{
    assert(spec_same_around(b, a, coords));
    assert forall|pair: (Port, PortType)|
        spec_ports_reached(a, blocked, start).contains(pair) <==> spec_ports_reached(
            b,
            blocked,
            start,
        ).contains(pair) by {
        if a.reaches(blocked, start, pair.0) {
            lemma_reach_other_world(a, b, coords, blocked, start, pair.0);
        }
        if b.reaches(blocked, start, pair.0) {
            lemma_reach_other_world(b, a, coords, blocked, start, pair.0);
        }
    }
    assert(spec_ports_reached(a, blocked, start) =~= spec_ports_reached(b, blocked, start));
    if !blocked.contains(start) {
        assert(start.coords != coords);
        assert(a.connection(start) == b.connection(start));
    }
    assert forall|p: Port| spec_marks_after(a, blocked, start, p) <==> spec_marks_after(
        b,
        blocked,
        start,
        p,
    ) by {
        if !blocked.contains(p) {
            assert(p.coords != coords);
            assert(a.connection(p) == b.connection(p));
            if a.reaches_wire_block(blocked, start, p.coords) {
                let e = choose|e: Port| #[trigger]
                    a.reaches(blocked, start, e) && a.is_wire(e) && e.coords == p.coords;
                lemma_reach_other_world(a, b, coords, blocked, start, e);
                assert(b.reaches(blocked, start, e) && b.is_wire(e) && e.coords == p.coords);
            }
            if b.reaches_wire_block(blocked, start, p.coords) {
                let e = choose|e: Port| #[trigger]
                    b.reaches(blocked, start, e) && b.is_wire(e) && e.coords == p.coords;
                lemma_reach_other_world(b, a, coords, blocked, start, e);
                assert(a.reaches(blocked, start, e) && a.is_wire(e) && e.coords == p.coords);
            }
        }
    }
    assert(Set::new(|p: Port| spec_marks_after(a, blocked, start, p)) =~= Set::new(
        |p: Port| spec_marks_after(b, blocked, start, p),
    ));
}

/// Putting the surroundings of the block into groups again gives the same in both worlds.
pub proof fn lemma_rederived_other_world(
    view: LogicGraphView,
    a: LogicWorld,
    b: LogicWorld,
    signal: i32,
    coords: BlockCoordinate,
    directions: Seq<BlockDirection>,
)
    requires
        spec_same_around(a, b, coords),
    ensures
        view.rederived(a, signal, coords, directions) == view.rederived(
            b,
            signal,
            coords,
            directions,
        ),
        spec_blocks(view.rederived(a, signal, coords, directions).1, coords),
    decreases directions.len(),
{
    if directions.len() > 0 {
        let shorter = directions.drop_last();
        lemma_rederived_other_world(view, a, b, signal, coords, shorter);
        let (mid, blocked) = view.rederived(a, signal, coords, shorter);
        match (Port { coords, direction: directions.last() }).spec_facing(a.dimensions) {
            Some(start) => {
                lemma_search_other_world(a, b, coords, blocked, start);
            },
            None => {},
        }
    }
}

/// A search from the block has the same right answers in both worlds.
pub proof fn lemma_found_other_world(
    view: LogicGraphView,
    a: LogicWorld,
    b: LogicWorld,
    coords: BlockCoordinate,
    direction: BlockDirection,
    found: Option<usize>,
)
    requires
        spec_same_around(a, b, coords),
        spec_found_from(view, a, coords, direction, found),
    ensures
        spec_found_from(view, b, coords, direction, found),
{
    let blocked = Port::spec_all_for(coords);
    assert(spec_same_around(b, a, coords));
    match (Port { coords, direction }).spec_facing(a.dimensions) {
        Some(start) => {
            assert(is_search_result(view, a, blocked, start, found));
            match found {
                Some(group) => {
                    let at = choose|at: Port| #[trigger]
                        a.reaches(blocked, start, at) && anchored(view, a, at, group);
                    lemma_reach_other_world(a, b, coords, blocked, start, at);
                    assert(b.reaches(blocked, start, at) && anchored(view, b, at, group));
                },
                None => {
                    assert forall|at: Port, group: usize| #[trigger]
                        b.reaches(blocked, start, at) implies !#[trigger] anchored(
                        view,
                        b,
                        at,
                        group,
                    ) by {
                        lemma_reach_other_world(b, a, coords, blocked, start, at);
                        assert(!anchored(view, a, at, group));
                    }
                },
            }
        },
        None => {},
    }
}

/// Taking a logic block out of the graph comes to the same in both worlds.
pub proof fn lemma_block_removed_other_world(
    before: LogicGraphView,
    after: LogicGraphView,
    a: LogicWorld,
    b: LogicWorld,
    logic_block: &LogicBlock,
    rotation: BlockFace,
    coords: BlockCoordinate,
)
    requires
        spec_same_around(a, b, coords),
        spec_block_removed(before, after, a, logic_block, rotation, coords),
    ensures
        spec_block_removed(before, after, b, logic_block, rotation, coords),
{
    let directions = logic_block.spec_directions_with(Some(LogicConnection::Wire), rotation);
    let without_ports = before.ports_removed(
        a.dimensions,
        coords,
        logic_block.spec_directions_with(Some(LogicConnection::Port(PortType::Input)), rotation),
        PortType::Input,
    ).ports_removed(
        a.dimensions,
        coords,
        logic_block.spec_directions_with(Some(LogicConnection::Port(PortType::Output)), rotation),
        PortType::Output,
    );
    assert(spec_wire_removed(without_ports, after, a, coords, directions));
    if directions.len() > 0 {
        let found = choose|found: Option<usize>| #[trigger]
            spec_group_of_wire(without_ports, a, coords, directions, found) && after == (
            match found {
                Some(group) => without_ports.without_group(group).rederived(
                    a,
                    without_ports.groups[group].signal,
                    coords,
                    directions,
                ).0,
                None => without_ports.rederived(a, 0, coords, directions).0,
            });
        assert(spec_group_of_wire(without_ports, b, coords, directions, found)) by {
            if !(found matches Some(group) && without_ports.stands_for(coords, group)) {
                assert(spec_found_by_faces(without_ports, a, coords, directions, found));
                match found {
                    Some(group) => {
                        let i = choose|i: int|
                            0 <= i < directions.len() && #[trigger] spec_found_from(
                                without_ports,
                                a,
                                coords,
                                directions[i],
                                Some(group),
                            ) && forall|j: int|
                                0 <= j < i ==> #[trigger] spec_found_from(
                                    without_ports,
                                    a,
                                    coords,
                                    directions[j],
                                    None,
                                );
                        lemma_found_other_world(
                            without_ports,
                            a,
                            b,
                            coords,
                            directions[i],
                            Some(group),
                        );
                        assert forall|j: int| 0 <= j < i implies #[trigger] spec_found_from(
                            without_ports,
                            b,
                            coords,
                            directions[j],
                            None,
                        ) by {
                            assert(spec_found_from(without_ports, a, coords, directions[j], None));
                            lemma_found_other_world(
                                without_ports,
                                a,
                                b,
                                coords,
                                directions[j],
                                None,
                            );
                        }
                    },
                    None => {
                        assert forall|i: int|
                            0 <= i < directions.len() implies #[trigger] spec_found_from(
                            without_ports,
                            b,
                            coords,
                            directions[i],
                            None,
                        ) by {
                            assert(spec_found_from(without_ports, a, coords, directions[i], None));
                            lemma_found_other_world(
                                without_ports,
                                a,
                                b,
                                coords,
                                directions[i],
                                None,
                            );
                        }
                    },
                }
            }
        }
        match found {
            Some(group) => {
                lemma_rederived_other_world(
                    without_ports.without_group(group),
                    a,
                    b,
                    without_ports.groups[group].signal,
                    coords,
                    directions,
                );
            },
            None => {
                lemma_rederived_other_world(without_ports, a, b, 0, coords, directions);
            },
        }
        assert(spec_wire_removed(without_ports, after, b, coords, directions));
    }
}

} // verus!
