//! Searching the logic network along its wires.

use vstd::prelude::*;

use crate::block::block_direction::BlockDirection;
use crate::block::Block;
use crate::logic::collections::PortSet;
use crate::logic::logic_graph::{LogicGraph, LogicGraphView};
use crate::logic::world::{
    connection_at, lemma_reach_not_blocked, lemma_reach_self, lemma_reach_step, world_of,
    LogicWorld,
};
use crate::logic::{LogicBlock, LogicConnection, Port, PortType};
use crate::registry::Registry;
use crate::structure::coordinates::BlockCoordinate;
use crate::structure::Structure;

verus! {

/// What a search along the wires found.
pub struct Exploration {
    /// The group that the search stopped at, where it was looking for one.
    pub group: Option<usize>,
    /// The ports that the search came to, each with its kind, where it was not looking for
    /// a group.
    pub ports: Vec<(Port, PortType)>,
    /// The wire block that the search started in, if it started in one.
    pub wire: Option<BlockCoordinate>,
}

/// Whether the graph tells at the port `at` that one is in the group `group`: an input or
/// output port tells its own group, and a wire tells the group that its block stands for.
pub open spec fn anchored(view: LogicGraphView, world: LogicWorld, at: Port, group: usize) -> bool {
    match world.connection(at) {
        Some(LogicConnection::Port(port_type)) => view.group_of(at, port_type) == Some(group),
        Some(LogicConnection::Wire) => view.stands_for(at.coords, group),
        None => false,
    }
}

/// Whether `found` is a right answer to the question which group one gets to from `start`:
/// a group is right if wires lead from `start`, past no blocked port, to a port that tells
/// it; no group is right only if they lead to no port that tells any.
pub open spec fn is_search_result(
    view: LogicGraphView,
    world: LogicWorld,
    blocked: Set<Port>,
    start: Port,
    found: Option<usize>,
) -> bool {
    match found {
        Some(group) => exists|at: Port| #[trigger]
            world.reaches(blocked, start, at) && anchored(view, world, at, group),
        None => forall|at: Port, group: usize| #[trigger]
            world.reaches(blocked, start, at) ==> !#[trigger] anchored(view, world, at, group),
    }
}

/// Whether `found` takes the short way where there is one: if the port that the search
/// starts at tells a group itself, the search goes no further and answers with a group that
/// the port tells.
pub open spec fn spec_shortcut_taken(
    view: LogicGraphView,
    world: LogicWorld,
    blocked: Set<Port>,
    start: Port,
    found: Option<usize>,
) -> bool {
    !blocked.contains(start) && (exists|group: usize| anchored(view, world, start, group))
        ==> found.is_some() && anchored(view, world, start, found.unwrap())
}

/// The ports that a search has marked once it has been through the wire blocks `explored`.
pub open spec fn spec_marked(
    world: LogicWorld,
    blocked: Set<Port>,
    explored: Set<BlockCoordinate>,
    port: Port,
) -> bool {
    blocked.contains(port) || (world.is_wire(port) && explored.contains(port.coords))
}

/// Whether the search is done with `port`: it has looked at it, or it has been through the
/// wire block that the port is a wire face of.
spec fn covered(
    world: LogicWorld,
    handled: Set<Port>,
    explored: Set<BlockCoordinate>,
    port: Port,
) -> bool {
    handled.contains(port) || (world.is_wire(port) && explored.contains(port.coords))
}

/// Whether the search has taken care of what lies behind the wire face `exit` of a block it
/// has been through.
spec fn exit_done(
    world: LogicWorld,
    blocked: Set<Port>,
    handled: Set<Port>,
    explored: Set<BlockCoordinate>,
    stack: Seq<Port>,
    exit: Port,
) -> bool {
    explored.contains(exit.coords) && world.is_wire(exit) && !blocked.contains(exit)
        ==> match exit.spec_facing(world.dimensions) {
        Some(to) => blocked.contains(to) || stack.contains(to) || covered(
            world,
            handled,
            explored,
            to,
        ),
        None => true,
    }
}

/// What holds between two steps of a search.
spec fn search_inv(
    world: LogicWorld,
    blocked: Set<Port>,
    start: Port,
    visited: Set<Port>,
    handled: Set<Port>,
    explored: Set<BlockCoordinate>,
    stack: Seq<Port>,
) -> bool {
    &&& forall|i: int| 0 <= i < stack.len() ==> world.reaches(blocked, start, #[trigger] stack[i])
    &&& forall|h: Port| #[trigger]
        handled.contains(h) ==> world.reaches(blocked, start, h) && (world.is_wire(h)
            ==> explored.contains(h.coords))
    &&& forall|c: BlockCoordinate| #[trigger]
        explored.contains(c) ==> world.reaches_wire_block(blocked, start, c)
    &&& forall|x: Port| #[trigger] visited.contains(x) <==> spec_marked(world, blocked, explored, x)
    &&& forall|x: Port| #[trigger] exit_done(world, blocked, handled, explored, stack, x)
    &&& blocked.contains(start) || stack.contains(start) || handled.contains(start)
}

/// Once nothing is left to look at, the search is done with every port on every path.
proof fn lemma_path_covered(
    world: LogicWorld,
    blocked: Set<Port>,
    start: Port,
    visited: Set<Port>,
    handled: Set<Port>,
    explored: Set<BlockCoordinate>,
    path: Seq<Port>,
    i: int,
)
    requires
        search_inv(world, blocked, start, visited, handled, explored, Seq::<Port>::empty()),
        world.is_path(blocked, path),
        path[0] == start,
        0 <= i < path.len(),
    ensures
        covered(world, handled, explored, path[i]),
    decreases i,
{
    let none = Seq::<Port>::empty();
    if i == 0 {
        assert(!blocked.contains(path[0]));
        assert(!none.contains(start));
    } else {
        lemma_path_covered(world, blocked, start, visited, handled, explored, path, i - 1);
        let from = path[i - 1];
        let to = path[i - 1 + 1];
        assert(world.wire_step(blocked, from, to));
        let exit = Port { coords: from.coords, direction: to.direction.spec_inverse() };
        assert(exit_done(world, blocked, handled, explored, none, exit));
        assert(explored.contains(from.coords));
        assert(!blocked.contains(path[i]));
        assert(!none.contains(to));
    }
}

/// Once nothing is left to look at, the search is done with everything that wires lead to.
proof fn lemma_reached_covered(
    world: LogicWorld,
    blocked: Set<Port>,
    start: Port,
    visited: Set<Port>,
    handled: Set<Port>,
    explored: Set<BlockCoordinate>,
    target: Port,
)
    requires
        search_inv(world, blocked, start, visited, handled, explored, Seq::<Port>::empty()),
        world.reaches(blocked, start, target),
    ensures
        covered(world, handled, explored, target),
{
    let path = choose|path: Seq<Port>|
        #[trigger] world.is_path(blocked, path) && path[0] == start && path.last() == target;
    lemma_path_covered(
        world,
        blocked,
        start,
        visited,
        handled,
        explored,
        path,
        path.len() - 1,
    );
}

/// What a search that went everywhere has marked: what was blocked before, and every wire
/// face of every wire block that wires lead to.
pub open spec fn spec_marks_after(
    world: LogicWorld,
    blocked: Set<Port>,
    start: Port,
    port: Port,
) -> bool {
    blocked.contains(port) || (world.is_wire(port) && world.reaches_wire_block(
        blocked,
        start,
        port.coords,
    ))
}

impl LogicGraph {
    /// Follows the wires from `start`, through every wire block at most once and past no
    /// port of `visited`, and marks in `visited` the wire faces of the blocks it goes through.
    ///
    /// With `stop_at_group` the search ends at the first port that tells a group: an input or
    /// output port that the graph knows, or a wire block that stands for a group. Without,
    /// the search goes everywhere and lists the input and output ports it comes to.
    pub(crate) fn explore(
        &self,
        start: Port,
        structure: &Structure,
        visited: &mut PortSet,
        blocks: &Registry<Block>,
        logic_blocks: &Registry<LogicBlock>,
        stop_at_group: bool,
    ) -> (found: Exploration)
        requires
            structure.wf(),
        ensures
            forall|p: Port| old(visited)@.contains(p) ==> final(visited)@.contains(p),
            forall|p: Port|
                final(visited)@.contains(p) ==> spec_marks_after(
                    world_of(structure, blocks, logic_blocks),
                    old(visited)@,
                    start,
                    p,
                ),
            stop_at_group ==> is_search_result(
                self@,
                world_of(structure, blocks, logic_blocks),
                old(visited)@,
                start,
                found.group,
            ),
            stop_at_group ==> spec_shortcut_taken(
                self@,
                world_of(structure, blocks, logic_blocks),
                old(visited)@,
                start,
                found.group,
            ),
            !stop_at_group ==> {
                let world = world_of(structure, blocks, logic_blocks);
                &&& found.group.is_none()
                &&& forall|p: Port, t: PortType|
                    found.ports@.contains((p, t)) <==> world.reaches(old(visited)@, start, p)
                        && world.connection(p) == Some(LogicConnection::Port(t))
                &&& found.wire == if world.is_wire(start) && !old(visited)@.contains(start) {
                    Some(start.coords)
                } else {
                    None
                }
                &&& forall|p: Port|
                    final(visited)@.contains(p) <==> spec_marks_after(
                        world,
                        old(visited)@,
                        start,
                        p,
                    )
            },
    {
        let ghost world = world_of(structure, blocks, logic_blocks);
        let ghost blocked = visited@;
        let ghost universe = world.connections.dom();
        let ghost mut handled: Set<Port> = Set::empty();
        let ghost mut explored: Set<BlockCoordinate> = Set::empty();
        let dimensions = structure.block_dimensions();
        let mut stack: Vec<Port> = Vec::new();
        let mut ports: Vec<(Port, PortType)> = Vec::new();
        let mut wire: Option<BlockCoordinate> = None;
        stack.push(start);
        proof {
            crate::logic::world::lemma_world_wf(structure, blocks, logic_blocks);
            assert(stack@[0] == start);
            if !blocked.contains(start) {
                lemma_reach_self(world, blocked, start);
            } else {
                assert(stack@ == seq![start]);
            }
        }
        if visited.contains(start) {
            proof {
                assert forall|at: Port| !world.reaches(blocked, start, at) by {
                    if world.reaches(blocked, start, at) {
                        lemma_reach_not_blocked(world, blocked, start, at);
                    }
                }
                assert forall|p: Port| visited@.contains(p) <==> spec_marks_after(
                    world,
                    blocked,
                    start,
                    p,
                ) by {
                    if world.reaches_wire_block(blocked, start, p.coords) {
                        let e = choose|e: Port| #[trigger]
                            world.reaches(blocked, start, e) && world.is_wire(e) && e.coords
                                == p.coords;
                    }
                }
            }
            return Exploration { group: None, ports, wire };
        }
        while stack.len() > 0
            invariant
                structure.wf(),
                world == world_of(structure, blocks, logic_blocks),
                world.wf(),
                universe == world.connections.dom(),
                dimensions == world.dimensions,
                blocked == old(visited)@,
                !blocked.contains(start),
                search_inv(world, blocked, start, visited@, handled, explored, stack@),
                stop_at_group ==> ports@.len() == 0,
                stop_at_group ==> forall|h: Port, g: usize| #[trigger]
                    handled.contains(h) ==> !#[trigger] anchored(self@, world, h, g),
                stop_at_group ==> forall|c: BlockCoordinate, g: usize| #[trigger]
                    explored.contains(c) ==> !#[trigger] self@.stands_for(c, g),
                !stop_at_group ==> forall|p: Port, t: PortType|
                    ports@.contains((p, t)) <==> handled.contains(p) && world.connection(p) == Some(
                        LogicConnection::Port(t),
                    ),
                match wire {
                    Some(c) => c == start.coords && world.is_wire(start) && explored.contains(c),
                    None => forall|c: BlockCoordinate| !explored.contains(c),
                },
                (forall|c: BlockCoordinate| !explored.contains(c)) ==> stack@.len() == 0 || (stack@
                    == seq![start] && forall|h: Port| !handled.contains(h)),
                stop_at_group ==> (stack@ == seq![start] && visited@ == blocked) || forall|
                    g: usize,
                | !anchored(self@, world, start, g),
            decreases 7 * universe.difference(visited@).len() + stack@.len(),
        {
            let ghost stack_before = stack@;
            let ghost visited_before = visited@;
            let ghost at_start = stack@ == seq![start] && visited@ == blocked;
            let popped = stack.pop();
            let e = popped.unwrap();
            let ghost rest = stack@;
            proof {
                assert(stack_before == rest.push(e));
                assert(stack_before[stack_before.len() - 1] == e);
                if at_start {
                    assert(e == start);
                    assert(rest.len() == 0);
                }
                assert(world.reaches(blocked, start, e));
                lemma_reach_not_blocked(world, blocked, start, e);
                assert forall|p: Port| stack_before.contains(p) implies rest.contains(p) || p
                    == e by {
                    let k = choose|k: int| 0 <= k < stack_before.len() && stack_before[k] == p;
                    if k < rest.len() {
                        assert(rest[k] == p);
                    }
                }
                assert forall|i: int| 0 <= i < rest.len() implies world.reaches(
                    blocked,
                    start,
                    #[trigger] rest[i],
                ) by {
                    assert(stack_before[i] == rest[i]);
                }
            }
            let seen = visited.contains(e);
            let connection = if seen {
                None
            } else {
                connection_at(structure, blocks, logic_blocks, e)
            };
            match connection {
                Some(LogicConnection::Wire) => {
                    if stop_at_group {
                        match self.group_with_wire(e.coords) {
                            Some(group) => {
                                proof {
                                    assert(anchored(self@, world, e, group));
                                }
                                return Exploration { group: Some(group), ports, wire };
                            },
                            None => {},
                        }
                    }
                    proof {
                        assert(!spec_marked(world, blocked, explored, e));
                        assert(!explored.contains(e.coords));
                        if forall|c: BlockCoordinate| !explored.contains(c) {
                            assert(stack_before == seq![start]);
                            assert(e == start);
                        }
                    }
                    match wire {
                        None => {
                            wire = Some(e.coords);
                        },
                        Some(_) => {},
                    }
                    let mut d: usize = 0;
                    while d < 6
                        invariant
                            d <= 6,
                            structure.wf(),
                            world == world_of(structure, blocks, logic_blocks),
                            dimensions == world.dimensions,
                            world.is_wire(e),
                            world.reaches(blocked, start, e),
                            !explored.contains(e.coords),
                            forall|x: Port| #[trigger]
                                visited_before.contains(x) <==> spec_marked(
                                    world,
                                    blocked,
                                    explored,
                                    x,
                                ),
                            forall|x: Port|
                                visited@.contains(x) <==> visited_before.contains(x) || (x.coords
                                    == e.coords && world.is_wire(x) && x.direction.spec_index()
                                    < d),
                            stack@.len() <= rest.len() + d,
                            stack@.len() >= rest.len(),
                            stack@.take(rest.len() as int) == rest,
                            forall|i: int|
                                0 <= i < stack@.len() ==> world.reaches(
                                    blocked,
                                    start,
                                    #[trigger] stack@[i],
                                ),
                            forall|x: Port|
                                x.coords == e.coords && x.direction.spec_index() < d && world.is_wire(
                                    x,
                                ) && !blocked.contains(x) ==> match #[trigger] x.spec_facing(
                                    world.dimensions,
                                ) {
                                    Some(to) => blocked.contains(to) || stack@.contains(to) || covered(
                                        world,
                                        handled,
                                        explored,
                                        to,
                                    ),
                                    None => true,
                                },
                        decreases 6 - d,
                    {
                        let direction = BlockDirection::from_index(d);
                        let exit = Port::new(e.coords, direction);
                        let ghost stack_mid = stack@;
                        let ghost visited_mid = visited@;
                        let exit_connection = connection_at(structure, blocks, logic_blocks, exit);
                        let mut is_wire = false;
                        match exit_connection {
                            Some(LogicConnection::Wire) => {
                                is_wire = true;
                            },
                            _ => {},
                        }
                        if is_wire {
                            let fresh = visited.insert(exit);
                            if fresh {
                                match exit.facing(dimensions) {
                                    Some(to) => {
                                        if !visited.contains(to) {
                                            stack.push(to);
                                            proof {
                                                assert(to.direction.spec_inverse() == direction);
                                                assert(!visited_mid.contains(exit));
                                                assert(!visited_before.contains(exit));
                                                assert(!spec_marked(world, blocked, explored, exit));
                                                assert(world.is_wire(exit));
                                                assert(exit.spec_facing(world.dimensions) == Some(to));
                                                assert(world.wire_step(blocked, e, to));
                                                assert(!visited_before.contains(to));
                                                assert(!spec_marked(world, blocked, explored, to));
                                                assert(!blocked.contains(to));
                                                lemma_reach_step(world, blocked, start, e, to);
                                                assert(stack@[stack_mid.len() as int] == to);
                                            }
                                        } else {
                                            proof {
                                                assert(to.coords != e.coords);
                                                assert(visited_before.contains(to));
                                                assert(spec_marked(world, blocked, explored, to));
                                            }
                                        }
                                    },
                                    None => {},
                                }
                            } else {
                                proof {
                                    assert(visited_before.contains(exit));
                                    assert(spec_marked(world, blocked, explored, exit));
                                    assert(blocked.contains(exit));
                                }
                            }
                        }
                        proof {
                            assert forall|i: int| 0 <= i < stack@.len() implies world.reaches(
                                blocked,
                                start,
                                #[trigger] stack@[i],
                            ) by {
                                if i < stack_mid.len() {
                                    assert(stack@[i] == stack_mid[i]);
                                }
                            }
                            assert(stack@.take(rest.len() as int) =~= rest) by {
                                assert(stack_mid.take(rest.len() as int) == rest);
                                assert forall|i: int| 0 <= i < rest.len() implies stack@[i]
                                    == rest[i] by {
                                    assert(stack_mid.take(rest.len() as int)[i] == stack_mid[i]);
                                }
                            }
                            assert forall|x: Port|
                                x.coords == e.coords && x.direction.spec_index() < d + 1
                                    && world.is_wire(x) && !blocked.contains(
                                    x,
                                ) implies match #[trigger] x.spec_facing(world.dimensions) {
                                Some(to) => blocked.contains(to) || stack@.contains(to) || covered(
                                    world,
                                    handled,
                                    explored,
                                    to,
                                ),
                                None => true,
                            } by {
                                if x.direction.spec_index() < d {
                                    match x.spec_facing(world.dimensions) {
                                        Some(to) => {
                                            if stack_mid.contains(to) {
                                                let k = choose|k: int|
                                                    0 <= k < stack_mid.len() && stack_mid[k] == to;
                                                assert(stack@[k] == to);
                                            }
                                        },
                                        None => {},
                                    }
                                } else {
                                    crate::block::block_direction::lemma_direction_index_round_trip(
                                        x.direction,
                                        d as int,
                                    );
                                    assert(x == exit);
                                }
                            }
                            assert forall|x: Port|
                                visited@.contains(x) <==> visited_before.contains(x) || (x.coords
                                    == e.coords && world.is_wire(x) && x.direction.spec_index() < d
                                    + 1) by {
                                if x.coords == e.coords && x.direction.spec_index() == d {
                                    crate::block::block_direction::lemma_direction_index_round_trip(
                                        x.direction,
                                        d as int,
                                    );
                                    assert(x == exit);
                                }
                            }
                        }
                        d += 1;
                    }
                    proof {
                        let explored_after = explored.insert(e.coords);
                        let handled_after = handled.insert(e);
                        assert forall|x: Port| #[trigger]
                            visited@.contains(x) <==> spec_marked(
                                world,
                                blocked,
                                explored_after,
                                x,
                            ) by {
                            crate::block::block_direction::lemma_direction_index_round_trip(
                                x.direction,
                                0,
                            );
                            assert(visited_before.contains(x) <==> spec_marked(
                                world,
                                blocked,
                                explored,
                                x,
                            ));
                        }
                        assert forall|x: Port| #[trigger]
                            exit_done(world, blocked, handled_after, explored_after, stack@, x) by {
                            if explored_after.contains(x.coords) && world.is_wire(x)
                                && !blocked.contains(x) {
                                crate::block::block_direction::lemma_direction_index_round_trip(
                                    x.direction,
                                    0,
                                );
                                if x.coords != e.coords {
                                    assert(exit_done(
                                        world,
                                        blocked,
                                        handled,
                                        explored,
                                        stack_before,
                                        x,
                                    ));
                                    match x.spec_facing(world.dimensions) {
                                        Some(to) => {
                                            if stack_before.contains(to) && to != e {
                                                let k = choose|k: int|
                                                    0 <= k < rest.len() && rest[k] == to;
                                                assert(stack@.take(rest.len() as int)[k] == to);
                                                assert(stack@[k] == to);
                                            }
                                        },
                                        None => {},
                                    }
                                }
                            }
                        }
                        assert forall|c: BlockCoordinate| #[trigger]
                            explored_after.contains(c) implies world.reaches_wire_block(
                            blocked,
                            start,
                            c,
                        ) by {
                            if c == e.coords {
                                assert(world.reaches(blocked, start, e) && world.is_wire(e)
                                    && e.coords == c);
                            }
                        }
                        if stack_before.contains(start) && start != e {
                            let k = choose|k: int| 0 <= k < rest.len() && rest[k] == start;
                            assert(stack@.take(rest.len() as int)[k] == start);
                            assert(stack@[k] == start);
                        }
                        assert(search_inv(
                            world,
                            blocked,
                            start,
                            visited@,
                            handled_after,
                            explored_after,
                            stack@,
                        ));
                        // The search has one more port marked, so less is left to mark.
                        vstd::set::axiom_set_difference_finite(universe, visited_before);
                        assert(visited@.contains(e)) by {
                            crate::block::block_direction::lemma_direction_index_round_trip(
                                e.direction,
                                0,
                            );
                        }
                        universe.difference(visited@).lemma_subset_not_in_lt(
                            universe.difference(visited_before),
                            e,
                        );
                        if stop_at_group {
                            if at_start {
                                assert forall|g: usize| !anchored(self@, world, start, g) by {
                                    assert(!self@.stands_for(e.coords, g));
                                }
                            }
                            assert forall|h: Port, g: usize| #[trigger]
                                handled_after.contains(h) implies !#[trigger] anchored(
                                self@,
                                world,
                                h,
                                g,
                            ) by {
                                if h == e {
                                    assert(!self@.stands_for(e.coords, g));
                                }
                            }
                            assert forall|c: BlockCoordinate, g: usize| #[trigger]
                                explored_after.contains(c) implies !#[trigger] self@.stands_for(
                                c,
                                g,
                            ) by {}
                        }
                        assert(explored_after.contains(e.coords));
                        explored = explored_after;
                        handled = handled_after;
                    }
                },
                _ => {
                    let ghost handled_after = handled.insert(e);
                    match connection {
                        Some(LogicConnection::Port(port_type)) => {
                            if stop_at_group {
                                match self.group_of(e, port_type) {
                                    Some(group) => {
                                        proof {
                                            assert(anchored(self@, world, e, group));
                                        }
                                        return Exploration { group: Some(group), ports, wire };
                                    },
                                    None => {},
                                }
                            } else {
                                let ghost ports_before = ports@;
                                ports.push((e, port_type));
                                proof {
                                    assert(ports@[ports_before.len() as int] == (e, port_type));
                                    assert forall|p: Port, t: PortType|
                                        ports@.contains((p, t)) <==> handled_after.contains(p)
                                            && world.connection(p) == Some(
                                            LogicConnection::Port(t),
                                        ) by {
                                        if ports@.contains((p, t)) {
                                            let k = choose|k: int|
                                                0 <= k < ports@.len() && ports@[k] == (p, t);
                                            if k < ports_before.len() {
                                                assert(ports_before[k] == (p, t));
                                                assert(ports_before.contains((p, t)));
                                            }
                                        }
                                        if ports_before.contains((p, t)) {
                                            let k = choose|k: int|
                                                0 <= k < ports_before.len() && ports_before[k] == (
                                                    p,
                                                    t,
                                                );
                                            assert(ports@[k] == (p, t));
                                        }
                                    }
                                }
                            }
                        },
                        _ => {},
                    }
                    proof {
                        if seen {
                            assert(spec_marked(world, blocked, explored, e));
                        }
                        assert forall|x: Port| #[trigger]
                            exit_done(world, blocked, handled_after, explored, stack@, x) by {
                            assert(exit_done(world, blocked, handled, explored, stack_before, x));
                        }
                        assert(search_inv(
                            world,
                            blocked,
                            start,
                            visited@,
                            handled_after,
                            explored,
                            stack@,
                        ));
                        if stop_at_group {
                            if at_start {
                                assert(!seen);
                                assert forall|g: usize| !anchored(self@, world, start, g) by {}
                            }
                            assert forall|h: Port, g: usize| #[trigger]
                                handled_after.contains(h) implies !#[trigger] anchored(
                                self@,
                                world,
                                h,
                                g,
                            ) by {
                                if h == e && seen {
                                    assert(explored.contains(e.coords));
                                    assert(!self@.stands_for(e.coords, g));
                                }
                            }
                        } else {
                            assert forall|p: Port, t: PortType|
                                ports@.contains((p, t)) <==> handled_after.contains(p)
                                    && world.connection(p) == Some(LogicConnection::Port(t)) by {}
                        }
                        handled = handled_after;
                    }
                },
            }
        }
        proof {
            assert(stack@ =~= Seq::<Port>::empty());
            assert forall|at: Port| world.reaches(blocked, start, at) implies covered(
                world,
                handled,
                explored,
                at,
            ) by {
                lemma_reached_covered(world, blocked, start, visited@, handled, explored, at);
            }
            if stop_at_group {
                assert forall|at: Port, group: usize| #[trigger]
                    world.reaches(blocked, start, at) implies !#[trigger] anchored(
                    self@,
                    world,
                    at,
                    group,
                ) by {
                    assert(covered(world, handled, explored, at));
                    if !handled.contains(at) {
                        assert(!self@.stands_for(at.coords, group));
                    }
                }
            } else {
                lemma_reach_self(world, blocked, start);
                assert(covered(world, handled, explored, start));
                assert forall|p: Port, t: PortType|
                    ports@.contains((p, t)) <==> world.reaches(blocked, start, p)
                        && world.connection(p) == Some(LogicConnection::Port(t)) by {
                    if world.reaches(blocked, start, p) && world.connection(p) == Some(
                        LogicConnection::Port(t),
                    ) {
                        assert(covered(world, handled, explored, p));
                    }
                }
                assert forall|p: Port| visited@.contains(p) <==> spec_marks_after(
                    world,
                    blocked,
                    start,
                    p,
                ) by {
                    assert(visited@.contains(p) <==> spec_marked(world, blocked, explored, p));
                    if world.reaches_wire_block(blocked, start, p.coords) {
                        let at = choose|at: Port| #[trigger]
                            world.reaches(blocked, start, at) && world.is_wire(at) && at.coords
                                == p.coords;
                        assert(covered(world, handled, explored, at));
                    }
                }
            }
        }
        Exploration { group: None, ports, wire }
    }
}

} // verus!
