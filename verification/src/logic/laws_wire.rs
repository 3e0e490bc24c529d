//! What adding a wire and removing it again does to the groups around it.

use vstd::prelude::*;

use crate::block::block_direction::BlockDirection;
use crate::logic::edit::{
    spec_first_wire, spec_found_from, spec_group_of_wire, spec_groups_found, spec_ports_reached,
    spec_wire_placed, spec_wire_removed,
};
use crate::logic::laws::{lemma_reach_along_path, lemma_reach_monotone};
use crate::logic::logic_graph::LogicGraphView;
use crate::logic::search::{anchored, is_search_result, spec_marks_after};
use crate::logic::world::LogicWorld;
use crate::logic::{LogicConnection, Port, PortType};
use crate::structure::coordinates::BlockCoordinate;

verus! {

/// What the face of the block at `coords` that points along `direction` faces, if that lies
/// inside the structure.
pub open spec fn spec_side(
    world: LogicWorld,
    coords: BlockCoordinate,
    direction: BlockDirection,
) -> Option<Port> {
    (Port { coords, direction }).spec_facing(world.dimensions)
}

/// Whether the face that `port` is has a port of the kind `port_type`.
pub open spec fn spec_is_port(world: LogicWorld, port: Port, port_type: PortType) -> bool {
    world.connection(port) == Some(LogicConnection::Port(port_type))
}

/// Whether what is reached from `start` is the group `group` and nothing else: the input and
/// output ports reached are exactly the ports of the group, and no port or wire reached
/// tells another group.
pub open spec fn spec_side_of_group(
    view: LogicGraphView,
    world: LogicWorld,
    blocked: Set<Port>,
    start: Port,
    group: usize,
) -> bool {
    &&& view.groups.contains_key(group)
    &&& view.has_port(group)
    &&& forall|at: Port, other: usize|
        world.reaches(blocked, start, at) && #[trigger] anchored(view, world, at, other) ==> other
            == group
    &&& forall|p: Port, t: PortType|
        world.reaches(blocked, start, p) && world.connection(p) == Some(LogicConnection::Port(t))
            <==> #[trigger] view.group_of(p, t) == Some(group)
}

/// Whether nothing of the logic graph is reached from `start`: no input or output port, and
/// no wire that stands for a group.
pub open spec fn spec_side_dead(
    view: LogicGraphView,
    world: LogicWorld,
    blocked: Set<Port>,
    start: Port,
) -> bool {
    &&& forall|at: Port, group: usize|
        world.reaches(blocked, start, at) ==> !#[trigger] anchored(view, world, at, group)
    &&& forall|p: Port, t: PortType|
        world.reaches(blocked, start, p) ==> !#[trigger] spec_is_port(world, p, t)
}

/// Whether `labels` tells for each face of the block at `coords` what lies on that side: a
/// group of `view`, which is then all that is reached on that side, or nothing of the graph.
/// Where two sides lie differently, searches on them come to no wire block in common.
pub open spec fn spec_surroundings(
    view: LogicGraphView,
    world: LogicWorld,
    coords: BlockCoordinate,
    directions: Seq<BlockDirection>,
    labels: Seq<Option<usize>>,
) -> bool {
    let blocked = Port::spec_all_for(coords);
    &&& labels.len() == directions.len()
    &&& forall|k: int|
        0 <= k < directions.len() ==> match #[trigger] spec_side(world, coords, directions[k]) {
            Some(start) => match labels[k] {
                Some(group) => spec_side_of_group(view, world, blocked, start, group),
                None => spec_side_dead(view, world, blocked, start),
            },
            None => labels[k].is_none(),
        }
    &&& forall|j: int, k: int, c: BlockCoordinate|
        #![trigger labels[j], labels[k], world.reaches_wire_block(blocked, spec_side(world, coords, directions[k]).unwrap(), c)]
        0 <= j < directions.len() && 0 <= k < directions.len() && labels[j] != labels[k]
            && spec_side(world, coords, directions[j]).is_some() && spec_side(
            world,
            coords,
            directions[k],
        ).is_some() ==> !(world.reaches_wire_block(
            blocked,
            spec_side(world, coords, directions[j]).unwrap(),
            c,
        ) && world.reaches_wire_block(
            blocked,
            spec_side(world, coords, directions[k]).unwrap(),
            c,
        ))
}

/// Whether one of the first `count` sides is the side of `group`.
pub open spec fn spec_done(labels: Seq<Option<usize>>, count: int, group: usize) -> bool {
    exists|j: int| 0 <= j < count && j < labels.len() && #[trigger] labels[j] == Some(group)
}

/// Whether `cleared` is `before` without the groups that lie around the block, and without
/// their ports.
pub open spec fn spec_cleared(
    before: LogicGraphView,
    cleared: LogicGraphView,
    labels: Seq<Option<usize>>,
) -> bool {
    &&& cleared.inv()
    &&& before.next_group_id <= cleared.next_group_id
    &&& forall|p: Port, t: PortType|
        #![trigger cleared.group_of(p, t)]
        cleared.group_of(p, t) == match before.group_of(p, t) {
            Some(group) => if spec_done(labels, labels.len() as int, group) {
                None
            } else {
                Some(group)
            },
            None => None,
        }
    &&& forall|g: usize| #[trigger]
        cleared.groups.contains_key(g) <==> before.groups.contains_key(g) && !spec_done(
            labels,
            labels.len() as int,
            g,
        )
    &&& forall|g: usize| #[trigger]
        cleared.groups.contains_key(g) ==> cleared.groups[g] == before.groups[g]
}

/// What holds of the graph `view` and the marks `blocked` after the first `count` searches
/// that put the surroundings of the block into groups again.
pub open spec fn spec_rejoined(
    before: LogicGraphView,
    cleared: LogicGraphView,
    view: LogicGraphView,
    blocked: Set<Port>,
    world: LogicWorld,
    coords: BlockCoordinate,
    directions: Seq<BlockDirection>,
    labels: Seq<Option<usize>>,
    count: int,
) -> bool {
    let start_blocked = Port::spec_all_for(coords);
    &&& view.inv()
    &&& cleared.next_group_id <= view.next_group_id <= cleared.next_group_id + count
    &&& forall|g: usize| #[trigger]
        cleared.groups.contains_key(g) ==> view.groups.contains_key(g) && view.groups[g]
            == cleared.groups[g]
    &&& forall|g: usize| #[trigger]
        view.groups.contains_key(g) && !cleared.groups.contains_key(g) ==> g
            >= cleared.next_group_id
    &&& forall|p: Port, t: PortType|
        #![trigger view.group_of(p, t)]
        cleared.group_of(p, t).is_some() ==> view.group_of(p, t) == cleared.group_of(p, t)
    &&& forall|p: Port, t: PortType|
        #![trigger view.group_of(p, t)]
        cleared.group_of(p, t).is_none() ==> (view.group_of(p, t).is_some() <==> (before.group_of(
            p,
            t,
        ).is_some() && spec_done(labels, count, before.group_of(p, t).unwrap())))
    &&& forall|p: Port, t: PortType|
        #![trigger view.group_of(p, t)]
        cleared.group_of(p, t).is_none() && view.group_of(p, t).is_some() ==> view.group_of(
            p,
            t,
        ).unwrap() >= cleared.next_group_id
    &&& forall|p: Port, t: PortType, q: Port, u: PortType|
        #![trigger view.group_of(p, t), view.group_of(q, u)]
        cleared.group_of(p, t).is_none() && cleared.group_of(q, u).is_none() && view.group_of(
            p,
            t,
        ).is_some() && view.group_of(q, u).is_some() ==> (view.group_of(p, t) == view.group_of(
            q,
            u,
        ) <==> before.group_of(p, t) == before.group_of(q, u))
    &&& forall|x: Port| #[trigger] start_blocked.contains(x) ==> blocked.contains(x)
    &&& forall|x: Port|
        #[trigger] blocked.contains(x) && !start_blocked.contains(x) ==> world.is_wire(x)
            && exists|j: int|
            0 <= j < count && j < directions.len() && (#[trigger] spec_side(
                world,
                coords,
                directions[j],
            )).is_some() && world.reaches_wire_block(
                start_blocked,
                spec_side(world, coords, directions[j]).unwrap(),
                x.coords,
            )
}

/// A wire block that is reached past more blocked ports is reached past fewer.
pub proof fn lemma_reach_wire_block_monotone(
    world: LogicWorld,
    fewer: Set<Port>,
    more: Set<Port>,
    start: Port,
    coords: BlockCoordinate,
)
    requires
        fewer.subset_of(more),
        world.reaches_wire_block(more, start, coords),
    ensures
        world.reaches_wire_block(fewer, start, coords),
{
    let e = choose|e: Port| #[trigger]
        world.reaches(more, start, e) && world.is_wire(e) && e.coords == coords;
    lemma_reach_monotone(world, fewer, more, start, e);
    assert(world.reaches(fewer, start, e) && world.is_wire(e) && e.coords == coords);
}

/// The marks of the searches so far do not hinder a search on a side that lies differently
/// from all sides searched so far.
pub proof fn lemma_reach_past_marks(
    before: LogicGraphView,
    cleared: LogicGraphView,
    view: LogicGraphView,
    blocked: Set<Port>,
    world: LogicWorld,
    coords: BlockCoordinate,
    directions: Seq<BlockDirection>,
    labels: Seq<Option<usize>>,
    k: int,
    target: Port,
)
    requires
        spec_surroundings(before, world, coords, directions, labels),
        spec_rejoined(before, cleared, view, blocked, world, coords, directions, labels, k),
        0 <= k < directions.len(),
        spec_side(world, coords, directions[k]).is_some(),
        labels[k].is_some(),
        !spec_done(labels, k, labels[k].unwrap()),
    ensures
        world.reaches(blocked, spec_side(world, coords, directions[k]).unwrap(), target)
            <==> world.reaches(
            Port::spec_all_for(coords),
            spec_side(world, coords, directions[k]).unwrap(),
            target,
        ),
{
    let start_blocked = Port::spec_all_for(coords);
    let start = spec_side(world, coords, directions[k]).unwrap();
    assert(start_blocked.subset_of(blocked));
    if world.reaches(blocked, start, target) {
        lemma_reach_monotone(world, start_blocked, blocked, start, target);
    }
    if world.reaches(start_blocked, start, target) {
        let path = choose|path: Seq<Port>|
            #[trigger] world.is_path(start_blocked, path) && path[0] == start && path.last()
                == target;
        // A wire face of a block that this side comes to is not marked.
        assert forall|i: int, x: Port|
            0 <= i < path.len() && world.is_wire(path[i]) && x.coords == path[i].coords
                && !start_blocked.contains(x) implies !blocked.contains(x) by {
            if blocked.contains(x) {
                let j = choose|j: int|
                    0 <= j < k && j < directions.len() && (#[trigger] spec_side(
                        world,
                        coords,
                        directions[j],
                    )).is_some() && world.reaches_wire_block(
                        start_blocked,
                        spec_side(world, coords, directions[j]).unwrap(),
                        x.coords,
                    );
                lemma_reach_along_path(world, start_blocked, path, i);
                assert(world.reaches(start_blocked, start, path[i]) && world.is_wire(path[i])
                    && path[i].coords == x.coords);
                assert(world.reaches_wire_block(start_blocked, start, x.coords));
                if labels[j] == labels[k] {
                    assert(labels[j] == Some(labels[k].unwrap()));
                    assert(spec_done(labels, k, labels[k].unwrap()));
                }
                assert(labels[j] != labels[k]);
                assert(!(world.reaches_wire_block(
                    start_blocked,
                    spec_side(world, coords, directions[j]).unwrap(),
                    x.coords,
                ) && world.reaches_wire_block(
                    start_blocked,
                    spec_side(world, coords, directions[k]).unwrap(),
                    x.coords,
                )));
            }
        }
        assert forall|i: int| 0 <= i < path.len() implies !blocked.contains(#[trigger] path[i]) by {
            if blocked.contains(path[i]) {
                assert(!start_blocked.contains(path[i]));
                assert(world.is_wire(path[i]));
            }
        }
        assert forall|i: int| 0 <= i < path.len() - 1 implies world.wire_step(
            blocked,
            path[i],
            #[trigger] path[i + 1],
        ) by {
            assert(world.wire_step(start_blocked, path[i], path[i + 1]));
        }
        assert(world.is_path(blocked, path));
    }
}

/// After one more search, the marks are still marks of the searches so far.
pub proof fn lemma_marks_after_side(
    before: LogicGraphView,
    cleared: LogicGraphView,
    view: LogicGraphView,
    blocked: Set<Port>,
    world: LogicWorld,
    coords: BlockCoordinate,
    directions: Seq<BlockDirection>,
    labels: Seq<Option<usize>>,
    k: int,
)
    requires
        spec_rejoined(before, cleared, view, blocked, world, coords, directions, labels, k),
        0 <= k < directions.len(),
        spec_side(world, coords, directions[k]).is_some(),
    ensures
        ({
            let start_blocked = Port::spec_all_for(coords);
            let start = spec_side(world, coords, directions[k]).unwrap();
            let marks = Set::new(|p: Port| spec_marks_after(world, blocked, start, p));
            &&& forall|x: Port| #[trigger] start_blocked.contains(x) ==> marks.contains(x)
            &&& forall|x: Port|
                #[trigger] marks.contains(x) && !start_blocked.contains(x) ==> world.is_wire(x)
                    && exists|j: int|
                    0 <= j < k + 1 && j < directions.len() && (#[trigger] spec_side(
                        world,
                        coords,
                        directions[j],
                    )).is_some() && world.reaches_wire_block(
                        start_blocked,
                        spec_side(world, coords, directions[j]).unwrap(),
                        x.coords,
                    )
        }),
{
    let start_blocked = Port::spec_all_for(coords);
    let start = spec_side(world, coords, directions[k]).unwrap();
    let marks = Set::new(|p: Port| spec_marks_after(world, blocked, start, p));
    assert forall|x: Port| #[trigger] start_blocked.contains(x) implies marks.contains(x) by {
        assert(blocked.contains(x));
    }
    assert forall|x: Port| #[trigger]
        marks.contains(x) && !start_blocked.contains(x) implies world.is_wire(x) && exists|j: int|
        0 <= j < k + 1 && j < directions.len() && (#[trigger] spec_side(
            world,
            coords,
            directions[j],
        )).is_some() && world.reaches_wire_block(
            start_blocked,
            spec_side(world, coords, directions[j]).unwrap(),
            x.coords,
        ) by {
        if blocked.contains(x) {
            let j = choose|j: int|
                0 <= j < k && j < directions.len() && (#[trigger] spec_side(
                    world,
                    coords,
                    directions[j],
                )).is_some() && world.reaches_wire_block(
                    start_blocked,
                    spec_side(world, coords, directions[j]).unwrap(),
                    x.coords,
                );
            assert(0 <= j < k + 1 && spec_side(world, coords, directions[j]).is_some());
        } else {
            assert(start_blocked.subset_of(blocked));
            lemma_reach_wire_block_monotone(world, start_blocked, blocked, start, x.coords);
            assert(spec_side(world, coords, directions[k]).is_some());
        }
    }
}

/// A group is the group of one of the first `count + 1` sides if it is the group of one of
/// the first `count` or of the next.
pub proof fn lemma_done_step(labels: Seq<Option<usize>>, count: int, group: usize)
    requires
        0 <= count < labels.len(),
    ensures
        spec_done(labels, count + 1, group) <==> spec_done(labels, count, group) || labels[count]
            == Some(group),
        spec_done(labels, count, group) ==> spec_done(labels, labels.len() as int, group),
        labels[count] == Some(group) ==> spec_done(labels, labels.len() as int, group),
{
    if spec_done(labels, count + 1, group) {
        let j = choose|j: int|
            0 <= j < count + 1 && j < labels.len() && #[trigger] labels[j] == Some(group);
        if j < count {
            assert(spec_done(labels, count, group));
        }
    }
    if spec_done(labels, count, group) {
        let j = choose|j: int| 0 <= j < count && j < labels.len() && #[trigger] labels[j] == Some(
            group,
        );
        assert(0 <= j < count + 1 && labels[j] == Some(group));
        assert(0 <= j < labels.len() && labels[j] == Some(group));
    }
    if labels[count] == Some(group) {
        assert(0 <= count < count + 1 && labels[count] == Some(group));
    }
}

/// One more search keeps what holds of the graph and the marks.
pub proof fn lemma_rejoin_step(
    before: LogicGraphView,
    cleared: LogicGraphView,
    view: LogicGraphView,
    blocked: Set<Port>,
    world: LogicWorld,
    signal: i32,
    coords: BlockCoordinate,
    directions: Seq<BlockDirection>,
    labels: Seq<Option<usize>>,
    k: int,
)
    requires
        before.inv(),
        spec_surroundings(before, world, coords, directions, labels),
        spec_cleared(before, cleared, labels),
        spec_rejoined(before, cleared, view, blocked, world, coords, directions, labels, k),
        0 <= k < directions.len(),
        cleared.next_group_id + directions.len() <= usize::MAX,
    ensures
        match spec_side(world, coords, directions[k]) {
            Some(start) => spec_rejoined(
                before,
                cleared,
                view.attached(
                    spec_ports_reached(world, blocked, start),
                    signal,
                    spec_first_wire(world, blocked, start),
                ),
                Set::new(|p: Port| spec_marks_after(world, blocked, start, p)),
                world,
                coords,
                directions,
                labels,
                k + 1,
            ),
            None => spec_rejoined(
                before,
                cleared,
                view,
                blocked,
                world,
                coords,
                directions,
                labels,
                k + 1,
            ),
        },
{
    let start_blocked = Port::spec_all_for(coords);
    assert forall|h: usize|
        (spec_done(labels, k + 1, h) <==> spec_done(labels, k, h) || labels[k] == Some(h)) && (
        spec_done(labels, k, h) ==> spec_done(labels, labels.len() as int, h)) && (labels[k]
            == Some(h) ==> spec_done(labels, labels.len() as int, h)) by {
        lemma_done_step(labels, k, h);
    }
    match spec_side(world, coords, directions[k]) {
        None => {
            assert(labels[k].is_none());
            assert forall|x: Port|
                #[trigger] blocked.contains(x) && !start_blocked.contains(x) implies world.is_wire(
                x,
            ) && exists|j: int|
                0 <= j < k + 1 && j < directions.len() && (#[trigger] spec_side(
                    world,
                    coords,
                    directions[j],
                )).is_some() && world.reaches_wire_block(
                    start_blocked,
                    spec_side(world, coords, directions[j]).unwrap(),
                    x.coords,
                ) by {
                let j = choose|j: int|
                    0 <= j < k && j < directions.len() && (#[trigger] spec_side(
                        world,
                        coords,
                        directions[j],
                    )).is_some() && world.reaches_wire_block(
                        start_blocked,
                        spec_side(world, coords, directions[j]).unwrap(),
                        x.coords,
                    );
                assert(0 <= j < k + 1 && spec_side(world, coords, directions[j]).is_some());
            }
        },
        Some(start) => {
            let reached = spec_ports_reached(world, blocked, start);
            let wire = spec_first_wire(world, blocked, start);
            let after = view.attached(reached, signal, wire);
            let marks = Set::new(|p: Port| spec_marks_after(world, blocked, start, p));
            lemma_marks_after_side(
                before,
                cleared,
                view,
                blocked,
                world,
                coords,
                directions,
                labels,
                k,
            );
            assert(start_blocked.subset_of(blocked));
            // What is reached past the marks is reached from the block.
            assert forall|p: Port, t: PortType| reached.contains((p, t)) implies world.reaches(
                start_blocked,
                start,
                p,
            ) && spec_is_port(world, p, t) by {
                lemma_reach_monotone(world, start_blocked, blocked, start, p);
            }
            let fresh = match labels[k] {
                Some(group) => !spec_done(labels, k, group),
                None => false,
            };
            if !fresh {
                // Nothing that this search comes to is loose: the graph stays as it is.
                assert forall|p: Port, t: PortType| !view.is_loose(reached, p, t) by {
                    if reached.contains((p, t)) {
                        lemma_reach_monotone(world, start_blocked, blocked, start, p);
                        assert(world.reaches(start_blocked, start, p) && spec_is_port(world, p, t));
                        match labels[k] {
                            Some(group) => {
                                assert(spec_side_of_group(
                                    before,
                                    world,
                                    start_blocked,
                                    start,
                                    group,
                                ));
                                assert(before.group_of(p, t) == Some(group));
                                assert(cleared.group_of(p, t).is_none());
                                assert(view.group_of(p, t).is_some());
                            },
                            None => {
                                assert(spec_side_dead(before, world, start_blocked, start));
                            },
                        }
                    }
                }
                assert(after == view);
                assert forall|p: Port, t: PortType|
                    #![trigger after.group_of(p, t)]
                    cleared.group_of(p, t).is_none() implies (after.group_of(p, t).is_some() <==> (
                    before.group_of(p, t).is_some() && spec_done(
                        labels,
                        k + 1,
                        before.group_of(p, t).unwrap(),
                    ))) by {
                    assert(view.group_of(p, t).is_some() <==> (before.group_of(p, t).is_some()
                        && spec_done(labels, k, before.group_of(p, t).unwrap())));
                }
            } else {
                let group = labels[k].unwrap();
                let id = view.next_group_id;
                assert(spec_side_of_group(before, world, start_blocked, start, group));
                assert(spec_done(labels, labels.len() as int, group));
                // The ports that this search comes to are the ports of the group.
                assert forall|p: Port, t: PortType|
                    reached.contains((p, t)) <==> before.group_of(p, t) == Some(group) by {
                    lemma_reach_past_marks(
                        before,
                        cleared,
                        view,
                        blocked,
                        world,
                        coords,
                        directions,
                        labels,
                        k,
                        p,
                    );
                    assert(spec_is_port(world, p, t) <==> world.connection(p) == Some(
                        LogicConnection::Port(t),
                    ));
                }
                // They are all loose, and there is one.
                assert forall|p: Port, t: PortType|
                    view.is_loose(reached, p, t) <==> before.group_of(p, t) == Some(group) by {
                    if before.group_of(p, t) == Some(group) {
                        assert(cleared.group_of(p, t).is_none());
                        assert(view.group_of(p, t).is_some() <==> (before.group_of(p, t).is_some()
                            && spec_done(labels, k, before.group_of(p, t).unwrap())));
                    }
                }
                let (p0, t0) = choose|p: Port, t: PortType| #[trigger]
                    before.ports_of(group, t).contains(p);
                assert(before.group_of(p0, t0) == Some(group));
                assert(view.is_loose(reached, p0, t0));
                assert(!view.groups.contains_key(id));
                assert forall|p: Port, t: PortType|
                    #![trigger after.group_of(p, t)]
                    after.group_of(p, t) == if before.group_of(p, t) == Some(group) {
                        Some(id)
                    } else {
                        view.group_of(p, t)
                    } by {
                    match t {
                        PortType::Input => {
                            assert(view.is_loose(reached, p, PortType::Input) <==> before.group_of(
                                p,
                                t,
                            ) == Some(group));
                        },
                        PortType::Output => {
                            assert(view.is_loose(reached, p, PortType::Output)
                                <==> before.group_of(p, t) == Some(group));
                        },
                    }
                }
                assert(after.inv()) by {
                    assert forall|p: Port| #[trigger]
                        after.input_groups.contains_key(p) implies after.groups.contains_key(
                        after.input_groups[p],
                    ) by {
                        assert(after.group_of(p, PortType::Input).is_some());
                        if before.group_of(p, PortType::Input) != Some(group) {
                            assert(view.input_groups.contains_key(p));
                        }
                    }
                    assert forall|p: Port| #[trigger]
                        after.output_groups.contains_key(p) implies after.groups.contains_key(
                        after.output_groups[p],
                    ) by {
                        assert(after.group_of(p, PortType::Output).is_some());
                        if before.group_of(p, PortType::Output) != Some(group) {
                            assert(view.output_groups.contains_key(p));
                        }
                    }
                }
                assert forall|p: Port, t: PortType|
                    #![trigger after.group_of(p, t)]
                    cleared.group_of(p, t).is_some() implies after.group_of(p, t)
                    == cleared.group_of(p, t) by {
                    assert(view.group_of(p, t) == cleared.group_of(p, t));
                }
                assert forall|p: Port, t: PortType|
                    #![trigger after.group_of(p, t)]
                    cleared.group_of(p, t).is_none() implies (after.group_of(p, t).is_some() <==> (
                    before.group_of(p, t).is_some() && spec_done(
                        labels,
                        k + 1,
                        before.group_of(p, t).unwrap(),
                    ))) by {
                    assert(view.group_of(p, t).is_some() <==> (before.group_of(p, t).is_some()
                        && spec_done(labels, k, before.group_of(p, t).unwrap())));
                }
                assert forall|p: Port, t: PortType|
                    #![trigger after.group_of(p, t)]
                    cleared.group_of(p, t).is_none() && after.group_of(
                        p,
                        t,
                    ).is_some() implies after.group_of(p, t).unwrap() >= cleared.next_group_id by {
                    if before.group_of(p, t) != Some(group) {
                        assert(view.group_of(p, t).is_some());
                    }
                }
                assert forall|p: Port, t: PortType, q: Port, u: PortType|
                    #![trigger after.group_of(p, t), after.group_of(q, u)]
                    cleared.group_of(p, t).is_none() && cleared.group_of(q, u).is_none()
                        && after.group_of(p, t).is_some() && after.group_of(
                        q,
                        u,
                    ).is_some() implies (after.group_of(p, t) == after.group_of(q, u)
                    <==> before.group_of(p, t) == before.group_of(q, u)) by {
                    let p_new = before.group_of(p, t) == Some(group);
                    let q_new = before.group_of(q, u) == Some(group);
                    if !p_new {
                        assert(view.group_of(p, t).is_some());
                        match t {
                            PortType::Input => {
                                assert(view.input_groups.contains_key(p));
                            },
                            PortType::Output => {
                                assert(view.output_groups.contains_key(p));
                            },
                        }
                        assert(view.groups.contains_key(view.group_of(p, t).unwrap()));
                    }
                    if !q_new {
                        assert(view.group_of(q, u).is_some());
                        match u {
                            PortType::Input => {
                                assert(view.input_groups.contains_key(q));
                            },
                            PortType::Output => {
                                assert(view.output_groups.contains_key(q));
                            },
                        }
                        assert(view.groups.contains_key(view.group_of(q, u).unwrap()));
                    }
                    if !p_new && !q_new {
                        assert(view.group_of(p, t) == view.group_of(q, u) <==> before.group_of(
                            p,
                            t,
                        ) == before.group_of(q, u));
                    }
                }
            }
        },
    }
}

/// What holds of the graph and the marks holds after any number of the searches.
pub proof fn lemma_rejoin_progress(
    before: LogicGraphView,
    cleared: LogicGraphView,
    world: LogicWorld,
    signal: i32,
    coords: BlockCoordinate,
    directions: Seq<BlockDirection>,
    labels: Seq<Option<usize>>,
    count: int,
)
    requires
        before.inv(),
        spec_surroundings(before, world, coords, directions, labels),
        spec_cleared(before, cleared, labels),
        cleared.next_group_id + directions.len() <= usize::MAX,
        0 <= count <= directions.len(),
    ensures
        spec_rejoined(
            before,
            cleared,
            cleared.rederived(world, signal, coords, directions.take(count)).0,
            cleared.rederived(world, signal, coords, directions.take(count)).1,
            world,
            coords,
            directions,
            labels,
            count,
        ),
    decreases count,
{
    if count == 0 {
        assert(directions.take(0) =~= Seq::<BlockDirection>::empty());
        let blocked = Port::spec_all_for(coords);
        assert forall|p: Port, t: PortType|
            #![trigger cleared.group_of(p, t)]
            cleared.group_of(p, t).is_none() implies (cleared.group_of(p, t).is_some() <==> (
            before.group_of(p, t).is_some() && spec_done(
                labels,
                0,
                before.group_of(p, t).unwrap(),
            ))) by {}
    } else {
        lemma_rejoin_progress(before, cleared, world, signal, coords, directions, labels, count - 1);
        let shorter = directions.take(count - 1);
        let longer = directions.take(count);
        assert(longer.drop_last() =~= shorter);
        assert(longer.last() == directions[count - 1]);
        let (view, blocked) = cleared.rederived(world, signal, coords, shorter);
        lemma_rejoin_step(
            before,
            cleared,
            view,
            blocked,
            world,
            signal,
            coords,
            directions,
            labels,
            count - 1,
        );
    }
}

/// Once every side has been searched, the ports are grouped as they were before.
pub proof fn lemma_rejoined_all(
    before: LogicGraphView,
    cleared: LogicGraphView,
    view: LogicGraphView,
    blocked: Set<Port>,
    world: LogicWorld,
    coords: BlockCoordinate,
    directions: Seq<BlockDirection>,
    labels: Seq<Option<usize>>,
)
    requires
        before.inv(),
        labels.len() == directions.len(),
        spec_cleared(before, cleared, labels),
        spec_rejoined(
            before,
            cleared,
            view,
            blocked,
            world,
            coords,
            directions,
            labels,
            directions.len() as int,
        ),
    ensures
        forall|p: Port, t: PortType|
            #![trigger view.group_of(p, t)]
            view.group_of(p, t).is_some() <==> before.group_of(p, t).is_some(),
        forall|p: Port, t: PortType, q: Port, u: PortType|
            #![trigger view.group_of(p, t), view.group_of(q, u)]
            before.group_of(p, t).is_some() && before.group_of(q, u).is_some() ==> (view.group_of(
                p,
                t,
            ) == view.group_of(q, u) <==> before.group_of(p, t) == before.group_of(q, u)),
        forall|p: Port, t: PortType|
            #![trigger view.group_of(p, t)]
            before.group_of(p, t).is_some() && !spec_done(
                labels,
                labels.len() as int,
                before.group_of(p, t).unwrap(),
            ) ==> view.group_of(p, t) == before.group_of(p, t),
        forall|g: usize| #[trigger]
            before.groups.contains_key(g) && !spec_done(labels, labels.len() as int, g)
                ==> view.groups.contains_key(g) && view.groups[g] == before.groups[g],
{
    assert forall|p: Port, t: PortType|
        #![trigger view.group_of(p, t)]
        view.group_of(p, t).is_some() <==> before.group_of(p, t).is_some() by {
        if cleared.group_of(p, t).is_some() {
            assert(view.group_of(p, t) == cleared.group_of(p, t));
        } else {
            assert(view.group_of(p, t).is_some() <==> (before.group_of(p, t).is_some()
                && spec_done(labels, directions.len() as int, before.group_of(p, t).unwrap())));
        }
    }
    assert forall|p: Port, t: PortType, q: Port, u: PortType|
        #![trigger view.group_of(p, t), view.group_of(q, u)]
        before.group_of(p, t).is_some() && before.group_of(q, u).is_some() implies (view.group_of(
        p,
        t,
    ) == view.group_of(q, u) <==> before.group_of(p, t) == before.group_of(q, u)) by {
        let p_kept = cleared.group_of(p, t).is_some();
        let q_kept = cleared.group_of(q, u).is_some();
        assert(view.group_of(p, t).is_some());
        assert(view.group_of(q, u).is_some());
        if p_kept {
            assert(view.group_of(p, t) == cleared.group_of(p, t));
            assert(cleared.group_of(p, t) == before.group_of(p, t));
            match t {
                PortType::Input => {
                    assert(before.input_groups.contains_key(p));
                },
                PortType::Output => {
                    assert(before.output_groups.contains_key(p));
                },
            }
        }
        if q_kept {
            assert(view.group_of(q, u) == cleared.group_of(q, u));
            assert(cleared.group_of(q, u) == before.group_of(q, u));
            match u {
                PortType::Input => {
                    assert(before.input_groups.contains_key(q));
                },
                PortType::Output => {
                    assert(before.output_groups.contains_key(q));
                },
            }
        }
        if p_kept && !q_kept {
            assert(view.group_of(q, u).unwrap() >= cleared.next_group_id);
            assert(before.groups.contains_key(before.group_of(p, t).unwrap()));
        }
        if !p_kept && q_kept {
            assert(view.group_of(p, t).unwrap() >= cleared.next_group_id);
            assert(before.groups.contains_key(before.group_of(q, u).unwrap()));
        }
    }
    assert forall|p: Port, t: PortType|
        #![trigger view.group_of(p, t)]
        before.group_of(p, t).is_some() && !spec_done(
            labels,
            labels.len() as int,
            before.group_of(p, t).unwrap(),
        ) implies view.group_of(p, t) == before.group_of(p, t) by {
        assert(cleared.group_of(p, t) == before.group_of(p, t));
    }
    assert forall|g: usize| #[trigger]
        before.groups.contains_key(g) && !spec_done(
            labels,
            labels.len() as int,
            g,
        ) implies view.groups.contains_key(g) && view.groups[g] == before.groups[g] by {
        assert(cleared.groups.contains_key(g));
    }
}

/// What a search from the block finds on a side is what lies on that side.
pub proof fn lemma_found_is_label(
    before: LogicGraphView,
    world: LogicWorld,
    coords: BlockCoordinate,
    directions: Seq<BlockDirection>,
    labels: Seq<Option<usize>>,
    k: int,
    found: Option<usize>,
)
    requires
        spec_surroundings(before, world, coords, directions, labels),
        0 <= k < directions.len(),
        spec_found_from(before, world, coords, directions[k], found),
    ensures
        found == labels[k],
{
    let blocked = Port::spec_all_for(coords);
    match spec_side(world, coords, directions[k]) {
        None => {},
        Some(start) => {
            assert(is_search_result(before, world, blocked, start, found));
            match labels[k] {
                Some(group) => {
                    assert(spec_side_of_group(before, world, blocked, start, group));
                    match found {
                        Some(other) => {
                            let at = choose|at: Port| #[trigger]
                                world.reaches(blocked, start, at) && anchored(
                                    before,
                                    world,
                                    at,
                                    other,
                                );
                            assert(other == group);
                        },
                        None => {
                            let (p, t) = choose|p: Port, t: PortType| #[trigger]
                                before.ports_of(group, t).contains(p);
                            assert(before.group_of(p, t) == Some(group));
                            assert(world.reaches(blocked, start, p) && world.connection(p) == Some(
                                LogicConnection::Port(t),
                            ));
                            assert(anchored(before, world, p, group));
                        },
                    }
                },
                None => {
                    assert(spec_side_dead(before, world, blocked, start));
                    match found {
                        Some(other) => {
                            let at = choose|at: Port| #[trigger]
                                world.reaches(blocked, start, at) && anchored(
                                    before,
                                    world,
                                    at,
                                    other,
                                );
                            assert(false);
                        },
                        None => {},
                    }
                },
            }
        },
    }
}

/// Adding a wire block and removing it again comes to this: the groups that lay around the
/// block are removed with their ports, and the surroundings are put into groups again.
/// Returns the graph without those groups and the signal that the new groups take over.
pub proof fn lemma_wire_added_and_removed(
    before: LogicGraphView,
    added: LogicGraphView,
    after: LogicGraphView,
    world: LogicWorld,
    coords: BlockCoordinate,
    directions: Seq<BlockDirection>,
    labels: Seq<Option<usize>>,
) -> (result: (LogicGraphView, i32))
    requires
        before.inv(),
        before.next_group_id < usize::MAX,
        directions.len() > 0,
        forall|g: usize| !before.stands_for(coords, g),
        spec_surroundings(before, world, coords, directions, labels),
        spec_wire_placed(before, added, world, coords, directions),
        spec_wire_removed(added, after, world, coords, directions),
    ensures
        spec_cleared(before, result.0, labels),
        result.0.next_group_id <= before.next_group_id + 1,
        after == result.0.rederived(world, result.1, coords, directions).0,
{
    let found = choose|found: Seq<Option<usize>>|
        found.len() == directions.len() && (forall|i: int|
            0 <= i < directions.len() ==> #[trigger] spec_found_from(
                before,
                world,
                coords,
                directions[i],
                found[i],
            )) && added == #[trigger] before.wire_joined(coords, spec_groups_found(found));
    let ids = spec_groups_found(found);
    assert forall|i: int| 0 <= i < directions.len() implies found[i] == labels[i] by {
        assert(spec_found_from(before, world, coords, directions[i], found[i]));
        lemma_found_is_label(before, world, coords, directions, labels, i, found[i]);
    }
    assert forall|g: usize| ids.contains(g) <==> spec_done(labels, labels.len() as int, g) by {
        if ids.contains(g) {
            let i = choose|i: int| 0 <= i < found.len() && found[i] == Some(g);
            assert(labels[i] == Some(g));
        }
        if spec_done(labels, labels.len() as int, g) {
            let j = choose|j: int|
                0 <= j < labels.len() && j < labels.len() && #[trigger] labels[j] == Some(g);
            assert(found[j] == Some(g));
        }
    }
    assert forall|g: usize| ids.contains(g) implies before.groups.contains_key(g) by {
        let i = choose|i: int| 0 <= i < found.len() && found[i] == Some(g);
        assert(labels[i] == Some(g));
        assert(spec_side(world, coords, directions[i]).is_some());
    }
    // The group that the block stands for after it was added.
    let fresh = before.next_group_id;
    let own: usize = if ids =~= Set::<usize>::empty() {
        fresh
    } else if ids =~= Set::<usize>::empty().insert(ids.choose()) {
        ids.choose()
    } else {
        fresh
    };
    assert(!(ids =~= Set::<usize>::empty()) ==> ids.contains(ids.choose()));
    assert(!before.groups.contains_key(fresh));
    assert(added.stands_for(coords, own));
    assert forall|g: usize| added.stands_for(coords, g) implies g == own by {
        if g != own {
            if ids =~= Set::<usize>::empty() {
                assert(before.stands_for(coords, g));
            } else if ids =~= Set::<usize>::empty().insert(ids.choose()) {
                assert(before.stands_for(coords, g));
            } else {
                assert(before.groups.remove_keys(ids).contains_key(g));
                assert(before.stands_for(coords, g));
            }
        }
    }
    let removed = choose|removed: Option<usize>| #[trigger]
        spec_group_of_wire(added, world, coords, directions, removed) && after == (match removed {
            Some(group) => added.without_group(group).rederived(
                world,
                added.groups[group].signal,
                coords,
                directions,
            ).0,
            None => added.rederived(world, 0, coords, directions).0,
        });
    assert(removed == Some(own));
    let cleared = added.without_group(own);
    let signal = added.groups[own].signal;
    assert forall|p: Port, t: PortType|
        #![trigger cleared.group_of(p, t)]
        cleared.group_of(p, t) == match before.group_of(p, t) {
            Some(group) => if spec_done(labels, labels.len() as int, group) {
                None
            } else {
                Some(group)
            },
            None => None,
        } by {
        match t {
            PortType::Input => {
                if before.input_groups.contains_key(p) {
                    assert(before.groups.contains_key(before.input_groups[p]));
                    assert(ids.contains(before.input_groups[p]) <==> spec_done(
                        labels,
                        labels.len() as int,
                        before.input_groups[p],
                    ));
                }
            },
            PortType::Output => {
                if before.output_groups.contains_key(p) {
                    assert(before.groups.contains_key(before.output_groups[p]));
                    assert(ids.contains(before.output_groups[p]) <==> spec_done(
                        labels,
                        labels.len() as int,
                        before.output_groups[p],
                    ));
                }
            },
        }
    }
    assert forall|g: usize| #[trigger]
        cleared.groups.contains_key(g) <==> before.groups.contains_key(g) && !spec_done(
            labels,
            labels.len() as int,
            g,
        ) by {
        assert(ids.contains(g) <==> spec_done(labels, labels.len() as int, g));
    }
    assert forall|g: usize| #[trigger] cleared.groups.contains_key(g) implies cleared.groups[g]
        == before.groups[g] by {
        assert(ids.contains(g) <==> spec_done(labels, labels.len() as int, g));
    }
    assert(cleared.inv()) by {
        assert forall|p: Port| #[trigger]
            cleared.input_groups.contains_key(p) implies cleared.groups.contains_key(
            cleared.input_groups[p],
        ) by {
            assert(cleared.group_of(p, PortType::Input).is_some());
            assert(before.input_groups.contains_key(p));
            assert(before.groups.contains_key(before.input_groups[p]));
        }
        assert forall|p: Port| #[trigger]
            cleared.output_groups.contains_key(p) implies cleared.groups.contains_key(
            cleared.output_groups[p],
        ) by {
            assert(cleared.group_of(p, PortType::Output).is_some());
            assert(before.output_groups.contains_key(p));
            assert(before.groups.contains_key(before.output_groups[p]));
        }
    }
    (cleared, signal)
}

} // verus!
