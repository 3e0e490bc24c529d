//! Adding any logic block and removing it again.

use vstd::prelude::*;

use crate::block::block_direction::BlockDirection;
use crate::block::block_face::BlockFace;
use crate::logic::edit::{
    spec_block_added, spec_block_removed, spec_found_from, spec_groups_found, spec_ports_placed,
    spec_wire_placed, spec_wire_removed,
};
use crate::logic::laws::{
    law_add_remove_restores, lemma_extends_port_removed, lemma_extends_ports_placed,
    lemma_extends_ports_removed, lemma_faces_below_len, spec_extends, spec_placed,
};
use crate::logic::laws_world::{lemma_block_removed_other_world, spec_same_around};
use crate::logic::laws_wire::{
    lemma_rejoin_progress, lemma_rejoined_all, lemma_wire_added_and_removed, spec_done,
    spec_side, spec_side_dead, spec_side_of_group, spec_surroundings,
};
use crate::logic::search::{anchored, is_search_result};
use crate::logic::world::{lemma_reach_not_blocked, LogicWorld};
use crate::logic::{LogicBlock, LogicConnection};
use crate::logic::logic_graph::{spec_merged_signal, GroupState, LogicGraphView};
use crate::logic::{Port, PortType};
use crate::structure::coordinates::BlockCoordinate;

verus! {

/// Whether the groups `ids` are groups of `before` that each have a port.
pub open spec fn spec_groups_with_ports(before: LogicGraphView, ids: Set<usize>) -> bool {
    forall|g: usize| #[trigger] ids.contains(g) ==> before.groups.contains_key(g) && before.has_port(g)
}

/// The group of a port after a wire block has joined the groups `ids`.
pub proof fn lemma_group_of_joined(
    view: LogicGraphView,
    coords: BlockCoordinate,
    ids: Set<usize>,
    port: Port,
    port_type: PortType,
)
    requires
        view.inv(),
    ensures
        view.wire_joined(coords, ids).group_of(port, port_type) == match view.group_of(
            port,
            port_type,
        ) {
            Some(g) => if ids.contains(g) && !(ids =~= Set::<usize>::empty().insert(ids.choose())) {
                Some(view.next_group_id)
            } else {
                Some(g)
            },
            None => None,
        },
{
    match port_type {
        PortType::Input => {},
        PortType::Output => {},
    }
}

/// Two graphs with the same groups, the same group for every port and the same next id are
/// the same graph.
pub proof fn lemma_views_equal(a: LogicGraphView, b: LogicGraphView)
    requires
        a.next_group_id == b.next_group_id,
        a.groups =~= b.groups,
        forall|p: Port, t: PortType| #![trigger a.group_of(p, t)] a.group_of(p, t) == b.group_of(p, t),
    ensures
        a == b,
{
    assert forall|p: Port| #[trigger]
        a.input_groups.dom().contains(p) <==> b.input_groups.dom().contains(p) by {
        assert(a.group_of(p, PortType::Input) == b.group_of(p, PortType::Input));
    }
    assert forall|p: Port| a.input_groups.dom().contains(p) implies #[trigger] a.input_groups[p]
        == b.input_groups[p] by {
        assert(a.group_of(p, PortType::Input) == b.group_of(p, PortType::Input));
    }
    assert forall|p: Port| #[trigger]
        a.output_groups.dom().contains(p) <==> b.output_groups.dom().contains(p) by {
        assert(a.group_of(p, PortType::Output) == b.group_of(p, PortType::Output));
    }
    assert forall|p: Port| a.output_groups.dom().contains(p) implies #[trigger] a.output_groups[p]
        == b.output_groups[p] by {
        assert(a.group_of(p, PortType::Output) == b.group_of(p, PortType::Output));
    }
    assert(a.input_groups.dom() =~= b.input_groups.dom());
    assert(a.output_groups.dom() =~= b.output_groups.dom());
    assert(a.input_groups =~= b.input_groups);
    assert(a.output_groups =~= b.output_groups);
}

/// Whether `group` is left with nothing once `port` has left it.
pub open spec fn spec_bare_without(
    view: LogicGraphView,
    port: Port,
    port_type: PortType,
    group: usize,
) -> bool {
    !view.without_port(port, port_type).has_port(group) && view.groups[group].recent_wire_coords.is_none()
}

/// What the graph is after a port has left it: every other port is in the group it was in,
/// and the groups are as they were, but for the group of the port if that is left with
/// nothing.
pub proof fn lemma_port_removed(view: LogicGraphView, port: Port, port_type: PortType)
    requires
        view.inv(),
    ensures
        view.port_removed(port, port_type).next_group_id == view.next_group_id,
        forall|q: Port, u: PortType|
            #![trigger view.port_removed(port, port_type).group_of(q, u)]
            view.port_removed(port, port_type).group_of(q, u) == if q == port && u == port_type {
                None
            } else {
                view.group_of(q, u)
            },
        view.port_removed(port, port_type).groups == match view.group_of(port, port_type) {
            Some(group) => if spec_bare_without(view, port, port_type, group) {
                view.groups.remove(group)
            } else {
                view.groups
            },
            None => view.groups,
        },
{
    let after = view.port_removed(port, port_type);
    match view.group_of(port, port_type) {
        None => {},
        Some(group) => {
            let detached = view.without_port(port, port_type);
            assert forall|q: Port, u: PortType|
                #![trigger detached.group_of(q, u)]
                detached.group_of(q, u) == if q == port && u == port_type {
                    None
                } else {
                    view.group_of(q, u)
                } by {
                match (u, port_type) {
                    (PortType::Input, PortType::Input) => {},
                    (PortType::Input, PortType::Output) => {},
                    (PortType::Output, PortType::Input) => {},
                    (PortType::Output, PortType::Output) => {},
                }
            }
            if spec_bare_without(view, port, port_type, group) {
                assert(after == detached.without_group(group));
                assert forall|q: Port, u: PortType|
                    #![trigger after.group_of(q, u)]
                    after.group_of(q, u) == detached.group_of(q, u) by {
                    if detached.group_of(q, u) == Some(group) {
                        assert(detached.ports_of(group, u).contains(q));
                        assert(detached.has_port(group));
                    }
                    match u {
                        PortType::Input => {},
                        PortType::Output => {},
                    }
                }
            } else {
                assert(after == detached);
            }
        },
    }
}

/// Whether a wire block that joins the groups `ids` makes a new group: it does unless there
/// is exactly one group to join.
pub open spec fn spec_join_makes_group(ids: Set<usize>) -> bool {
    !(ids =~= Set::<usize>::empty().insert(ids.choose())) || ids =~= Set::<usize>::empty()
}

/// The groups after a wire block has joined the groups `ids`.
pub proof fn lemma_groups_joined(view: LogicGraphView, coords: BlockCoordinate, ids: Set<usize>)
    requires
        view.inv(),
    ensures
        ({
            let joined = view.wire_joined(coords, ids);
            let own = if spec_join_makes_group(ids) {
                view.next_group_id
            } else {
                ids.choose()
            };
            &&& joined.next_group_id == if spec_join_makes_group(ids) {
                (view.next_group_id + 1) as usize
            } else {
                view.next_group_id
            }
            &&& joined.groups.contains_key(own)
            &&& joined.groups[own].recent_wire_coords == Some(coords)
            &&& joined.groups[own].signal == if ids =~= Set::<usize>::empty() {
                0
            } else if spec_join_makes_group(ids) {
                spec_merged_signal(view.groups, ids)
            } else {
                view.groups[own].signal
            }
            &&& forall|g: usize|
                g != own ==> (#[trigger] joined.groups.contains_key(g) <==> view.groups.contains_key(
                    g,
                ) && !(spec_join_makes_group(ids) && ids.contains(g)))
            &&& forall|g: usize|
                g != own && #[trigger] joined.groups.contains_key(g) ==> joined.groups[g]
                    == view.groups[g]
        }),
{
    if !(ids =~= Set::<usize>::empty()) {
        assert(ids.contains(ids.choose()));
    }
}

/// A graph that a wire block has joined is still a graph.
pub proof fn lemma_joined_inv(view: LogicGraphView, coords: BlockCoordinate, ids: Set<usize>)
    requires
        view.inv(),
        view.next_group_id < usize::MAX,
        forall|g: usize| #[trigger] ids.contains(g) ==> view.groups.contains_key(g),
    ensures
        view.wire_joined(coords, ids).inv(),
{
    let joined = view.wire_joined(coords, ids);
    lemma_groups_joined(view, coords, ids);
    if !(ids =~= Set::<usize>::empty()) {
        assert(ids.contains(ids.choose()));
    }
    assert forall|p: Port| #[trigger]
        joined.input_groups.contains_key(p) implies joined.groups.contains_key(
        joined.input_groups[p],
    ) by {
        lemma_group_of_joined(view, coords, ids, p, PortType::Input);
        assert(joined.group_of(p, PortType::Input).is_some());
        assert(view.input_groups.contains_key(p));
        assert(view.groups.contains_key(view.input_groups[p]));
    }
    assert forall|p: Port| #[trigger]
        joined.output_groups.contains_key(p) implies joined.groups.contains_key(
        joined.output_groups[p],
    ) by {
        lemma_group_of_joined(view, coords, ids, p, PortType::Output);
        assert(joined.group_of(p, PortType::Output).is_some());
        assert(view.output_groups.contains_key(p));
        assert(view.groups.contains_key(view.output_groups[p]));
    }
}

/// The signal of a merge does not depend on a group that is not merged.
pub proof fn lemma_merged_signal_without(
    groups: Map<usize, GroupState>,
    ids: Set<usize>,
    other: usize,
)
    requires
        !ids.contains(other),
    ensures
        spec_merged_signal(groups.remove(other), ids) == spec_merged_signal(groups, ids),
{
    if spec_merged_signal(groups, ids) == 1 {
        let w = choose|w: usize| ids.contains(w) && groups.contains_key(w) && groups[w].signal != 0;
        assert(ids.contains(w) && groups.remove(other).contains_key(w) && groups.remove(
            other,
        )[w].signal != 0);
    }
    if spec_merged_signal(groups.remove(other), ids) == 1 {
        let w = choose|w: usize|
            ids.contains(w) && groups.remove(other).contains_key(w) && groups.remove(
                other,
            )[w].signal != 0;
        assert(ids.contains(w) && groups.contains_key(w) && groups[w].signal != 0);
    }
}

/// It makes no difference whether a port of the block leaves the graph before or after the
/// wire of the block joins the groups around it.
pub proof fn lemma_join_and_remove_commute(
    before: LogicGraphView,
    now: LogicGraphView,
    coords: BlockCoordinate,
    placed: Set<(Port, PortType)>,
    ids: Set<usize>,
    port: Port,
    port_type: PortType,
)
    requires
        before.inv(),
        before.no_dangling(),
        forall|p: Port, t: PortType|
            #![trigger before.group_of(p, t)]
            p.coords == coords ==> before.group_of(p, t).is_none(),
        spec_extends(before, now, coords, placed),
        now.next_group_id < usize::MAX,
        port.coords == coords,
        spec_groups_with_ports(before, ids),
    ensures
        now.wire_joined(coords, ids).port_removed(port, port_type) == now.port_removed(
            port,
            port_type,
        ).wire_joined(coords, ids),
{
    let joined = now.wire_joined(coords, ids);
    let removed = now.port_removed(port, port_type);
    let left = joined.port_removed(port, port_type);
    let right = removed.wire_joined(coords, ids);
    let makes = spec_join_makes_group(ids);
    let own = if makes {
        now.next_group_id
    } else {
        ids.choose()
    };
    if !(ids =~= Set::<usize>::empty()) {
        assert(ids.contains(ids.choose()));
    }
    assert forall|g: usize| #[trigger] ids.contains(g) implies now.groups.contains_key(g) by {
        assert(before.groups.contains_key(g));
    }
    lemma_extends_port_removed(before, now, coords, placed, port, port_type);
    lemma_joined_inv(now, coords, ids);
    lemma_port_removed(now, port, port_type);
    lemma_port_removed(joined, port, port_type);
    assert forall|g: usize| #[trigger] ids.contains(g) implies removed.groups.contains_key(g) by {
        assert(before.groups.contains_key(g));
    }
    lemma_groups_joined(now, coords, ids);
    lemma_groups_joined(removed, coords, ids);
    assert forall|q: Port, u: PortType| #![trigger left.group_of(q, u)] left.group_of(q, u)
        == right.group_of(q, u) by {
        lemma_group_of_joined(now, coords, ids, q, u);
        lemma_group_of_joined(removed, coords, ids, q, u);
    }
    // Whether the group of the port is left with nothing is the same either way.
    match now.group_of(port, port_type) {
        None => {
            lemma_group_of_joined(now, coords, ids, port, port_type);
            assert(joined.group_of(port, port_type).is_none());
            assert(left.groups =~= right.groups);
        },
        Some(group) => {
            lemma_group_of_joined(now, coords, ids, port, port_type);
            let group_joined = joined.group_of(port, port_type).unwrap();
            match port_type {
                PortType::Input => {
                    assert(now.input_groups.contains_key(port));
                },
                PortType::Output => {
                    assert(now.output_groups.contains_key(port));
                },
            }
            assert(now.groups.contains_key(group));
            if before.groups.contains_key(group) {
                // A group of before is not left with nothing, joined or not.
                if before.has_port(group) {
                    let (q, u) = choose|q: Port, u: PortType| #[trigger]
                        before.ports_of(group, u).contains(q);
                    assert(before.group_of(q, u) == Some(group));
                    assert(q.coords != coords);
                    assert(now.group_of(q, u) == Some(group));
                    lemma_group_of_joined(now, coords, ids, q, u);
                    assert(joined.group_of(q, u) == Some(group_joined));
                    let detached = now.without_port(port, port_type);
                    let detached_joined = joined.without_port(port, port_type);
                    assert(detached.ports_of(group, u).contains(q)) by {
                        match (u, port_type) {
                            (PortType::Input, PortType::Input) => {},
                            (PortType::Input, PortType::Output) => {},
                            (PortType::Output, PortType::Input) => {},
                            (PortType::Output, PortType::Output) => {},
                        }
                    }
                    assert(detached_joined.ports_of(group_joined, u).contains(q)) by {
                        match (u, port_type) {
                            (PortType::Input, PortType::Input) => {},
                            (PortType::Input, PortType::Output) => {},
                            (PortType::Output, PortType::Input) => {},
                            (PortType::Output, PortType::Output) => {},
                        }
                    }
                    assert(detached.has_port(group));
                    assert(detached_joined.has_port(group_joined));
                } else {
                    assert(before.groups[group].recent_wire_coords.is_some());
                    assert(now.groups[group] == before.groups[group]);
                }
                assert(!spec_bare_without(now, port, port_type, group));
                assert(!spec_bare_without(joined, port, port_type, group_joined));
                assert(removed.groups == now.groups);
                assert(left.groups == joined.groups);
                assert(left.groups =~= right.groups);
            } else {
                // A new group holds this port alone and is left with nothing either way.
                assert(!ids.contains(group));
                assert(group_joined == group);
                let (p, t) = choose|p: Port, t: PortType|
                    #![trigger now.group_of(p, t)]
                    {
                        &&& p.coords == coords
                        &&& now.group_of(p, t) == Some(group)
                        &&& forall|q: Port, u: PortType|
                            #![trigger now.group_of(q, u)]
                            now.group_of(q, u) == Some(group) ==> q == p && u == t
                    };
                assert(now.group_of(port, port_type) == Some(group));
                assert(p == port && t == port_type);
                let detached = now.without_port(port, port_type);
                let detached_joined = joined.without_port(port, port_type);
                assert(!detached.has_port(group)) by {
                    if detached.has_port(group) {
                        let (q, u) = choose|q: Port, u: PortType| #[trigger]
                            detached.ports_of(group, u).contains(q);
                        assert(now.group_of(q, u) == Some(group) && !(q == port && u == port_type)) by {
                            match (u, port_type) {
                                (PortType::Input, PortType::Input) => {},
                                (PortType::Input, PortType::Output) => {},
                                (PortType::Output, PortType::Input) => {},
                                (PortType::Output, PortType::Output) => {},
                            }
                        }
                    }
                }
                assert(!detached_joined.has_port(group)) by {
                    if detached_joined.has_port(group) {
                        let (q, u) = choose|q: Port, u: PortType| #[trigger]
                            detached_joined.ports_of(group, u).contains(q);
                        assert(joined.group_of(q, u) == Some(group) && !(q == port && u
                            == port_type)) by {
                            match (u, port_type) {
                                (PortType::Input, PortType::Input) => {},
                                (PortType::Input, PortType::Output) => {},
                                (PortType::Output, PortType::Input) => {},
                                (PortType::Output, PortType::Output) => {},
                            }
                        }
                        lemma_group_of_joined(now, coords, ids, q, u);
                        assert(now.group_of(q, u) == Some(group));
                    }
                }
                assert(group != own);
                assert(joined.groups[group] == now.groups[group]);
                assert(spec_bare_without(now, port, port_type, group));
                assert(spec_bare_without(joined, port, port_type, group));
                assert(removed.groups == now.groups.remove(group));
                assert(left.groups == joined.groups.remove(group));
                lemma_merged_signal_without(now.groups, ids, group);
                assert(left.groups =~= right.groups);
            }
        },
    }
    lemma_views_equal(left, right);
}

/// It makes no difference whether the ports of the block leave the graph before or after
/// the wire of the block joins the groups around it.
pub proof fn lemma_join_and_remove_all_commute(
    before: LogicGraphView,
    now: LogicGraphView,
    dimensions: BlockCoordinate,
    coords: BlockCoordinate,
    placed: Set<(Port, PortType)>,
    ids: Set<usize>,
    directions: Seq<BlockDirection>,
    port_type: PortType,
)
    requires
        before.inv(),
        before.no_dangling(),
        forall|p: Port, t: PortType|
            #![trigger before.group_of(p, t)]
            p.coords == coords ==> before.group_of(p, t).is_none(),
        spec_extends(before, now, coords, placed),
        now.next_group_id < usize::MAX,
        spec_groups_with_ports(before, ids),
    ensures
        now.wire_joined(coords, ids).ports_removed(dimensions, coords, directions, port_type)
            == now.ports_removed(dimensions, coords, directions, port_type).wire_joined(
            coords,
            ids,
        ),
        now.ports_removed(dimensions, coords, directions, port_type).next_group_id
            == now.next_group_id,
        spec_extends(
            before,
            now.ports_removed(dimensions, coords, directions, port_type),
            coords,
            placed.difference(spec_placed(dimensions, coords, directions, port_type)),
        ),
    decreases directions.len(),
{
    lemma_extends_ports_removed(before, now, dimensions, coords, placed, directions, port_type);
    if directions.len() > 0 {
        let shorter = directions.drop_last();
        let port = Port { coords, direction: directions.last() };
        lemma_join_and_remove_all_commute(
            before,
            now,
            dimensions,
            coords,
            placed,
            ids,
            shorter,
            port_type,
        );
        let mid = now.ports_removed(dimensions, coords, shorter, port_type);
        if port.spec_facing(dimensions).is_some() {
            lemma_join_and_remove_commute(
                before,
                mid,
                coords,
                placed.difference(spec_placed(dimensions, coords, shorter, port_type)),
                ids,
                port,
                port_type,
            );
            lemma_port_removed(mid, port, port_type);
        }
    }
}

/// What a search from the block finds on a side is what lies on that side, also when ports
/// of the block itself have joined the graph.
pub proof fn lemma_found_is_label_extended(
    before: LogicGraphView,
    now: LogicGraphView,
    world: LogicWorld,
    coords: BlockCoordinate,
    placed: Set<(Port, PortType)>,
    directions: Seq<BlockDirection>,
    labels: Seq<Option<usize>>,
    k: int,
    found: Option<usize>,
)
    requires
        before.inv(),
        spec_surroundings(before, world, coords, directions, labels),
        spec_extends(before, now, coords, placed),
        0 <= k < directions.len(),
        spec_found_from(now, world, coords, directions[k], found),
    ensures
        found == labels[k],
{
    let blocked = Port::spec_all_for(coords);
    match spec_side(world, coords, directions[k]) {
        None => {},
        Some(start) => {
            assert(is_search_result(now, world, blocked, start, found));
            // Where the search gets to, the graph tells what it told before.
            assert forall|at: Port, group: usize|
                world.reaches(blocked, start, at) implies (anchored(now, world, at, group)
                <==> anchored(before, world, at, group)) by {
                lemma_reach_not_blocked(world, blocked, start, at);
                assert(at.coords != coords);
                match world.connection(at) {
                    Some(LogicConnection::Port(t)) => {
                        assert(now.group_of(at, t) == before.group_of(at, t));
                    },
                    Some(LogicConnection::Wire) => {
                        if now.stands_for(at.coords, group) {
                            assert(now.groups.contains_key(group));
                            assert(before.groups.contains_key(group));
                        }
                        if before.stands_for(at.coords, group) {
                            assert(before.groups.contains_key(group));
                        }
                    },
                    None => {},
                }
            }
            match labels[k] {
                Some(group) => {
                    assert(spec_side_of_group(before, world, blocked, start, group));
                    match found {
                        Some(other) => {
                            let at = choose|at: Port| #[trigger]
                                world.reaches(blocked, start, at) && anchored(now, world, at, other);
                            assert(anchored(before, world, at, other));
                            assert(other == group);
                        },
                        None => {
                            let (p, t) = choose|p: Port, t: PortType| #[trigger]
                                before.ports_of(group, t).contains(p);
                            assert(before.group_of(p, t) == Some(group));
                            assert(world.reaches(blocked, start, p) && world.connection(p) == Some(
                                LogicConnection::Port(t),
                            ));
                            assert(anchored(before, world, p, group));
                            assert(anchored(now, world, p, group));
                        },
                    }
                },
                None => {
                    assert(spec_side_dead(before, world, blocked, start));
                    match found {
                        Some(other) => {
                            let at = choose|at: Port| #[trigger]
                                world.reaches(blocked, start, at) && anchored(now, world, at, other);
                            assert(anchored(before, world, at, other));
                            assert(false);
                        },
                        None => {},
                    }
                },
            }
        },
    }
}

/// What lies on a side is a right answer for a search on that side.
pub proof fn lemma_label_is_found(
    before: LogicGraphView,
    world: LogicWorld,
    coords: BlockCoordinate,
    directions: Seq<BlockDirection>,
    labels: Seq<Option<usize>>,
    k: int,
)
    requires
        spec_surroundings(before, world, coords, directions, labels),
        0 <= k < directions.len(),
    ensures
        spec_found_from(before, world, coords, directions[k], labels[k]),
{
    let blocked = Port::spec_all_for(coords);
    match spec_side(world, coords, directions[k]) {
        None => {},
        Some(start) => {
            match labels[k] {
                Some(group) => {
                    assert(spec_side_of_group(before, world, blocked, start, group));
                    let (p, t) = choose|p: Port, t: PortType| #[trigger]
                        before.ports_of(group, t).contains(p);
                    assert(before.group_of(p, t) == Some(group));
                    assert(world.reaches(blocked, start, p) && world.connection(p) == Some(
                        LogicConnection::Port(t),
                    ));
                    assert(world.reaches(blocked, start, p) && anchored(before, world, p, group));
                },
                None => {
                    assert(spec_side_dead(before, world, blocked, start));
                },
            }
        },
    }
}

/// What lies around a block does not depend on the ids that new groups will get.
pub proof fn lemma_surroundings_same_tables(
    a: LogicGraphView,
    b: LogicGraphView,
    world: LogicWorld,
    coords: BlockCoordinate,
    directions: Seq<BlockDirection>,
    labels: Seq<Option<usize>>,
)
    requires
        a.groups == b.groups,
        a.input_groups == b.input_groups,
        a.output_groups == b.output_groups,
        spec_surroundings(a, world, coords, directions, labels),
    ensures
        spec_surroundings(b, world, coords, directions, labels),
{
    let blocked = Port::spec_all_for(coords);
    assert forall|p: Port, t: PortType| #![trigger b.group_of(p, t)] a.group_of(p, t)
        == b.group_of(p, t) by {
        match t {
            PortType::Input => {},
            PortType::Output => {},
        }
    }
    assert forall|at: Port, group: usize|
        #![trigger anchored(b, world, at, group)]
        anchored(a, world, at, group) == anchored(b, world, at, group) by {
        match world.connection(at) {
            Some(LogicConnection::Port(t)) => {
                assert(a.group_of(at, t) == b.group_of(at, t));
            },
            _ => {},
        }
    }
    assert forall|g: usize| a.has_port(g) implies b.has_port(g) by {
        let (p, t) = choose|p: Port, t: PortType| #[trigger] a.ports_of(g, t).contains(p);
        assert(b.ports_of(g, t).contains(p));
    }
    assert forall|k: int| 0 <= k < directions.len() implies match #[trigger] spec_side(
        world,
        coords,
        directions[k],
    ) {
        Some(start) => match labels[k] {
            Some(group) => spec_side_of_group(b, world, blocked, start, group),
            None => spec_side_dead(b, world, blocked, start),
        },
        None => labels[k].is_none(),
    } by {
        match spec_side(world, coords, directions[k]) {
            Some(start) => match labels[k] {
                Some(group) => {
                    assert(spec_side_of_group(a, world, blocked, start, group));
                    assert forall|at: Port, other: usize|
                        world.reaches(blocked, start, at) && #[trigger] anchored(
                            b,
                            world,
                            at,
                            other,
                        ) implies other == group by {
                        assert(anchored(a, world, at, other));
                    }
                    assert forall|p: Port, t: PortType|
                        world.reaches(blocked, start, p) && world.connection(p) == Some(
                            LogicConnection::Port(t),
                        ) <==> #[trigger] b.group_of(p, t) == Some(group) by {
                        assert(a.group_of(p, t) == b.group_of(p, t));
                    }
                },
                None => {
                    assert(spec_side_dead(a, world, blocked, start));
                    assert forall|at: Port, group: usize|
                        world.reaches(blocked, start, at) implies !#[trigger] anchored(
                        b,
                        world,
                        at,
                        group,
                    ) by {
                        assert(!anchored(a, world, at, group));
                    }
                },
            },
            None => {},
        }
    }
}

/// Adding a logic block and removing it again at once leaves the ports grouped as they were.
///
/// `before` is a graph that knows no port of the block at `coords` and in which no group
/// has that block stand for it. The block `logic_block` is added there, which gives `added`,
/// and removed again, which gives `after`. `world` is the structure while the block is
/// added and `world_removed` the structure while it is removed; they differ at most in the
/// block at `coords`, which may be in the one and gone from the other. `labels` tells what
/// lies beside each wire face of the block: a group with a port that is all that is reached
/// on that side, or nothing of the graph; sides that lie differently share no wire block.
///
/// Then the graph knows the same ports after as before, and two ports are in one group
/// after exactly if they were in one group before. The groups that do not lie beside a wire
/// face of the block are untouched; those that do may have new ids and another signal.
pub proof fn law_add_remove_block_restores(
    before: LogicGraphView,
    added: LogicGraphView,
    after: LogicGraphView,
    world: LogicWorld,
    world_removed: LogicWorld,
    logic_block: &LogicBlock,
    rotation: BlockFace,
    coords: BlockCoordinate,
    labels: Seq<Option<usize>>,
)
    requires
        before.inv(),
        before.no_dangling(),
        before.next_group_id + 19 <= usize::MAX,
        spec_same_around(world, world_removed, coords),
        forall|p: Port, t: PortType|
            #![trigger before.group_of(p, t)]
            p.coords == coords ==> before.group_of(p, t).is_none(),
        forall|g: usize| !before.stands_for(coords, g),
        spec_surroundings(
            before,
            world,
            coords,
            logic_block.spec_directions_with(Some(LogicConnection::Wire), rotation),
            labels,
        ),
        spec_block_added(before, added, world, logic_block, rotation, coords),
        spec_block_removed(added, after, world_removed, logic_block, rotation, coords),
    ensures
        forall|p: Port, t: PortType|
            #![trigger after.group_of(p, t)]
            after.group_of(p, t).is_some() <==> before.group_of(p, t).is_some(),
        forall|p: Port, t: PortType|
            #![trigger after.group_of(p, t)]
            p.coords == coords ==> after.group_of(p, t).is_none(),
        forall|p: Port, t: PortType, q: Port, u: PortType|
            #![trigger after.group_of(p, t), after.group_of(q, u)]
            before.group_of(p, t).is_some() && before.group_of(q, u).is_some() ==> (after.group_of(
                p,
                t,
            ) == after.group_of(q, u) <==> before.group_of(p, t) == before.group_of(q, u)),
        forall|p: Port, t: PortType|
            #![trigger after.group_of(p, t)]
            before.group_of(p, t).is_some() && !spec_done(
                labels,
                labels.len() as int,
                before.group_of(p, t).unwrap(),
            ) ==> after.group_of(p, t) == before.group_of(p, t),
        forall|g: usize| #[trigger]
            before.groups.contains_key(g) && !spec_done(labels, labels.len() as int, g)
                ==> after.groups.contains_key(g) && after.groups[g] == before.groups[g],
{
    assert(spec_same_around(world_removed, world, coords));
    lemma_block_removed_other_world(
        added,
        after,
        world_removed,
        world,
        logic_block,
        rotation,
        coords,
    );
    let dimensions = world.dimensions;
    let inputs = logic_block.spec_directions_with(
        Some(LogicConnection::Port(PortType::Input)),
        rotation,
    );
    let outputs = logic_block.spec_directions_with(
        Some(LogicConnection::Port(PortType::Output)),
        rotation,
    );
    let directions = logic_block.spec_directions_with(Some(LogicConnection::Wire), rotation);
    lemma_faces_below_len(logic_block, Some(LogicConnection::Port(PortType::Input)), 6);
    lemma_faces_below_len(logic_block, Some(LogicConnection::Port(PortType::Output)), 6);
    lemma_faces_below_len(logic_block, Some(LogicConnection::Wire), 6);
    if directions.len() == 0 {
        law_add_remove_restores(
            before,
            added,
            after,
            world,
            world,
            logic_block,
            rotation,
            coords,
        );
        assert forall|p: Port, t: PortType| #![trigger after.group_of(p, t)] after.group_of(p, t)
            == before.group_of(p, t) by {
            match t {
                PortType::Input => {},
                PortType::Output => {},
            }
        }
    } else {
        let (with_inputs, with_outputs) = choose|
            with_inputs: LogicGraphView,
            with_outputs: LogicGraphView,
        |
            #![trigger spec_ports_placed(
                with_inputs,
                with_outputs,
                world,
                coords,
                outputs,
                PortType::Output,
            )]
            {
                &&& spec_ports_placed(before, with_inputs, world, coords, inputs, PortType::Input)
                &&& spec_ports_placed(
                    with_inputs,
                    with_outputs,
                    world,
                    coords,
                    outputs,
                    PortType::Output,
                )
                &&& spec_wire_placed(with_outputs, added, world, coords, directions)
            };
        let none = Set::<(Port, PortType)>::empty();
        let placed_inputs = spec_placed(dimensions, coords, inputs, PortType::Input);
        let placed_outputs = spec_placed(dimensions, coords, outputs, PortType::Output);
        let all = none + placed_inputs + placed_outputs;
        assert(spec_extends(before, before, coords, none));
        lemma_extends_ports_placed(
            before,
            before,
            with_inputs,
            world,
            coords,
            none,
            inputs,
            PortType::Input,
        );
        lemma_extends_ports_placed(
            before,
            with_inputs,
            with_outputs,
            world,
            coords,
            none + placed_inputs,
            outputs,
            PortType::Output,
        );
        // The wire joins the groups that lie around the block.
        let found = choose|found: Seq<Option<usize>>|
            found.len() == directions.len() && (forall|i: int|
                0 <= i < directions.len() ==> #[trigger] spec_found_from(
                    with_outputs,
                    world,
                    coords,
                    directions[i],
                    found[i],
                )) && added == #[trigger] with_outputs.wire_joined(coords, spec_groups_found(found));
        assert forall|i: int| 0 <= i < directions.len() implies found[i] == labels[i] by {
            assert(spec_found_from(with_outputs, world, coords, directions[i], found[i]));
            lemma_found_is_label_extended(
                before,
                with_outputs,
                world,
                coords,
                all,
                directions,
                labels,
                i,
                found[i],
            );
        }
        assert(found =~= labels);
        let ids = spec_groups_found(labels);
        assert forall|g: usize| #[trigger] ids.contains(g) implies before.groups.contains_key(g)
            && before.has_port(g) by {
            let i = choose|i: int| 0 <= i < labels.len() && labels[i] == Some(g);
            assert(spec_side(world, coords, directions[i]).is_some());
        }
        // The ports of the block leave again; that comes to the same as if they had never
        // been placed.
        lemma_join_and_remove_all_commute(
            before,
            with_outputs,
            dimensions,
            coords,
            all,
            ids,
            inputs,
            PortType::Input,
        );
        let without_inputs = with_outputs.ports_removed(
            dimensions,
            coords,
            inputs,
            PortType::Input,
        );
        lemma_join_and_remove_all_commute(
            before,
            without_inputs,
            dimensions,
            coords,
            all.difference(placed_inputs),
            ids,
            outputs,
            PortType::Output,
        );
        let bare = without_inputs.ports_removed(dimensions, coords, outputs, PortType::Output);
        let joined = added.ports_removed(dimensions, coords, inputs, PortType::Input).ports_removed(
            dimensions,
            coords,
            outputs,
            PortType::Output,
        );
        assert(joined == bare.wire_joined(coords, ids));
        let left = all.difference(placed_inputs).difference(placed_outputs);
        assert(left =~= none);
        assert(spec_extends(before, bare, coords, left));
        // With no port of the block left, the graph is as before, but for the ids to come.
        assert forall|p: Port, t: PortType| #![trigger bare.group_of(p, t)] bare.group_of(p, t)
            == before.group_of(p, t) by {
            if p.coords == coords && bare.group_of(p, t).is_some() {
                assert(left.contains((p, t)));
            }
        }
        assert forall|g: usize| bare.groups.contains_key(g) implies before.groups.contains_key(
            g,
        ) by {
            if !before.groups.contains_key(g) {
                let (p, t) = choose|p: Port, t: PortType|
                    #![trigger bare.group_of(p, t)]
                    {
                        &&& p.coords == coords
                        &&& bare.group_of(p, t) == Some(g)
                        &&& forall|q: Port, u: PortType|
                            #![trigger bare.group_of(q, u)]
                            bare.group_of(q, u) == Some(g) ==> q == p && u == t
                    };
                assert(bare.group_of(p, t) == before.group_of(p, t));
            }
        }
        assert(bare.groups =~= before.groups);
        let renumbered = LogicGraphView { next_group_id: bare.next_group_id, ..before };
        assert forall|p: Port, t: PortType| #![trigger bare.group_of(p, t)] bare.group_of(p, t)
            == renumbered.group_of(p, t) by {
            assert(bare.group_of(p, t) == before.group_of(p, t));
            match t {
                PortType::Input => {},
                PortType::Output => {},
            }
        }
        lemma_views_equal(bare, renumbered);
        lemma_surroundings_same_tables(before, renumbered, world, coords, directions, labels);
        assert forall|i: int| 0 <= i < directions.len() implies #[trigger] spec_found_from(
            renumbered,
            world,
            coords,
            directions[i],
            labels[i],
        ) by {
            lemma_label_is_found(renumbered, world, coords, directions, labels, i);
        }
        assert(spec_wire_placed(renumbered, joined, world, coords, directions));
        assert(spec_wire_removed(joined, after, world, coords, directions));
        assert forall|g: usize| !renumbered.stands_for(coords, g) by {
            assert(!before.stands_for(coords, g));
        }
        let (cleared, signal) = lemma_wire_added_and_removed(
            renumbered,
            joined,
            after,
            world,
            coords,
            directions,
            labels,
        );
        lemma_rejoin_progress(
            renumbered,
            cleared,
            world,
            signal,
            coords,
            directions,
            labels,
            directions.len() as int,
        );
        assert(directions.take(directions.len() as int) =~= directions);
        let end = cleared.rederived(world, signal, coords, directions);
        lemma_rejoined_all(renumbered, cleared, end.0, end.1, world, coords, directions, labels);
        assert forall|p: Port, t: PortType| #![trigger after.group_of(p, t)] renumbered.group_of(
            p,
            t,
        ) == before.group_of(p, t) by {
            match t {
                PortType::Input => {},
                PortType::Output => {},
            }
        }
        assert forall|p: Port, t: PortType, q: Port, u: PortType|
            #![trigger after.group_of(p, t), after.group_of(q, u)]
            before.group_of(p, t).is_some() && before.group_of(q, u).is_some() implies (
            after.group_of(p, t) == after.group_of(q, u) <==> before.group_of(p, t)
                == before.group_of(q, u)) by {
            assert(renumbered.group_of(p, t) == before.group_of(p, t));
            assert(renumbered.group_of(q, u) == before.group_of(q, u));
        }
    }
}

} // verus!
