//! Changing the logic graph when a block of the structure changes.

use vstd::prelude::*;

use crate::block::block_direction::BlockDirection;
use crate::block::block_face::BlockFace;
use crate::block::Block;
use crate::logic::collections::PortSet;
use crate::logic::logic_graph::{GroupState, LogicGraph, LogicGraphView};
use crate::logic::search::{is_search_result, spec_marks_after, spec_shortcut_taken};
use crate::logic::world::{world_of, LogicWorld};
use crate::logic::{LogicBlock, LogicConnection, Port, PortType};
use crate::registry::Registry;
use crate::structure::coordinates::BlockCoordinate;
use crate::structure::Structure;

verus! {

impl LogicGraphView {
    /// The graph after `port` has left it: the port is gone, and so is its group if the port
    /// was the last thing it had, that is if no other port is left in it and no wire block
    /// stands for it.
    pub open spec fn port_removed(self, port: Port, port_type: PortType) -> LogicGraphView {
        match self.group_of(port, port_type) {
            None => self,
            Some(group) => {
                let detached = self.without_port(port, port_type);
                if detached.has_port(group) || detached.groups[group].recent_wire_coords.is_some() {
                    detached
                } else {
                    detached.without_group(group)
                }
            },
        }
    }

    /// The graph after `port` has joined the group that a search found, or a new group that
    /// is off where the search found none.
    pub open spec fn port_placed(
        self,
        port: Port,
        port_type: PortType,
        found: Option<usize>,
    ) -> LogicGraphView {
        match found {
            Some(group) => self.with_port(port, port_type, group),
            None => self.with_new_group(
                GroupState { signal: 0, recent_wire_coords: None },
            ).with_port(port, port_type, self.next_group_id),
        }
    }

    /// Whether `port` is among `candidates` and in no group yet.
    pub open spec fn is_loose(
        self,
        candidates: Set<(Port, PortType)>,
        port: Port,
        port_type: PortType,
    ) -> bool {
        candidates.contains((port, port_type)) && self.group_of(port, port_type).is_none()
    }

    /// The graph after the ports among `candidates` that were in no group have been put into
    /// one new group with the given signal and wire. Without such a port, nothing changes.
    pub open spec fn attached(
        self,
        candidates: Set<(Port, PortType)>,
        signal: i32,
        wire: Option<BlockCoordinate>,
    ) -> LogicGraphView {
        if !(exists|p: Port, t: PortType| self.is_loose(candidates, p, t)) {
            self
        } else {
            let id = self.next_group_id;
            LogicGraphView {
                next_group_id: (id + 1) as usize,
                groups: self.groups.insert(id, GroupState { signal, recent_wire_coords: wire }),
                input_groups: Map::new(
                    |p: Port| self.is_loose(candidates, p, PortType::Input),
                    |p: Port| id,
                ).union_prefer_right(self.input_groups),
                output_groups: Map::new(
                    |p: Port| self.is_loose(candidates, p, PortType::Output),
                    |p: Port| id,
                ).union_prefer_right(self.output_groups),
            }
        }
    }
}

/// The input and output ports that wires lead to from `start`, past no blocked port.
pub open spec fn spec_ports_reached(
    world: LogicWorld,
    blocked: Set<Port>,
    start: Port,
) -> Set<(Port, PortType)> {
    Set::new(
        |pair: (Port, PortType)|
            world.reaches(blocked, start, pair.0) && world.connection(pair.0) == Some(
                LogicConnection::Port(pair.1),
            ),
    )
}

/// The wire block that a search from `start` begins in, if it begins in one.
pub open spec fn spec_first_wire(world: LogicWorld, blocked: Set<Port>, start: Port) -> Option<
    BlockCoordinate,
> {
    if world.is_wire(start) && !blocked.contains(start) {
        Some(start.coords)
    } else {
        None
    }
}

/// A group that has a port keeps having one when ports only join groups.
pub proof fn lemma_has_port_kept(before: LogicGraphView, after: LogicGraphView, group: usize)
    requires
        before.has_port(group),
        forall|p: Port, t: PortType| #[trigger]
            before.ports_of(group, t).contains(p) ==> after.ports_of(group, t).contains(p),
    ensures
        after.has_port(group),
{
    let (p, t) = choose|p: Port, t: PortType| #[trigger] before.ports_of(group, t).contains(p);
    assert(after.ports_of(group, t).contains(p));
}

/// Whether `found` is a right answer to the question which group one gets to by leaving the
/// block at `coords` along `direction`. Where that step leaves the structure, only no group
/// is right. The search passes no port of the block itself.
pub open spec fn spec_found_from(
    view: LogicGraphView,
    world: LogicWorld,
    coords: BlockCoordinate,
    direction: BlockDirection,
    found: Option<usize>,
) -> bool {
    match (Port { coords, direction }).spec_facing(world.dimensions) {
        Some(start) => is_search_result(view, world, Port::spec_all_for(coords), start, found),
        None => found.is_none(),
    }
}

/// Whether `found` is a right answer to the question which group one gets to by leaving the
/// block at `coords` along one of `directions`, tried in their order: the answer for the
/// first direction that has one.
pub open spec fn spec_found_by_faces(
    view: LogicGraphView,
    world: LogicWorld,
    coords: BlockCoordinate,
    directions: Seq<BlockDirection>,
    found: Option<usize>,
) -> bool {
    match found {
        Some(group) => exists|i: int|
            0 <= i < directions.len() && #[trigger] spec_found_from(
                view,
                world,
                coords,
                directions[i],
                Some(group),
            ) && forall|j: int|
                0 <= j < i ==> #[trigger] spec_found_from(view, world, coords, directions[j], None),
        None => forall|i: int|
            0 <= i < directions.len() ==> #[trigger] spec_found_from(
                view,
                world,
                coords,
                directions[i],
                None,
            ),
    }
}

/// Whether `after` is `before` with `port` placed: the port has left the group it may have
/// been in, a search from what the port faces has looked for a group, and the port has
/// joined that group, or a new one. A port that faces nothing inside the structure is not
/// placed.
pub open spec fn spec_port_placed(
    before: LogicGraphView,
    after: LogicGraphView,
    world: LogicWorld,
    port: Port,
    port_type: PortType,
) -> bool {
    match port.spec_facing(world.dimensions) {
        None => after == before,
        Some(start) => {
            let cleaned = before.port_removed(port, port_type);
            exists|found: Option<usize>| #[trigger]
                is_search_result(cleaned, world, Port::spec_all_for(port.coords), start, found)
                    && after == cleaned.port_placed(port, port_type, found)
        },
    }
}

/// Whether `after` is `before` with the ports of the block at `coords` that point along
/// `directions` placed one after the other.
pub open spec fn spec_ports_placed(
    before: LogicGraphView,
    after: LogicGraphView,
    world: LogicWorld,
    coords: BlockCoordinate,
    directions: Seq<BlockDirection>,
    port_type: PortType,
) -> bool
    decreases directions.len(),
{
    if directions.len() == 0 {
        after == before
    } else {
        exists|mid: LogicGraphView|
            spec_ports_placed(before, mid, world, coords, directions.drop_last(), port_type)
                && #[trigger] spec_port_placed(
                mid,
                after,
                world,
                Port { coords, direction: directions.last() },
                port_type,
            )
    }
}

/// Placing one more port extends a run of placements.
pub proof fn lemma_ports_placed_step(
    before: LogicGraphView,
    mid: LogicGraphView,
    after: LogicGraphView,
    world: LogicWorld,
    coords: BlockCoordinate,
    directions: Seq<BlockDirection>,
    port_type: PortType,
)
    requires
        directions.len() > 0,
        spec_ports_placed(before, mid, world, coords, directions.drop_last(), port_type),
        spec_port_placed(
            mid,
            after,
            world,
            Port { coords, direction: directions.last() },
            port_type,
        ),
    ensures
        spec_ports_placed(before, after, world, coords, directions, port_type),
{
}

/// The groups among the answers of several searches.
pub open spec fn spec_groups_found(found: Seq<Option<usize>>) -> Set<usize> {
    Set::new(|group: usize| found.contains(Some(group)))
}

impl LogicGraphView {
    /// The graph after a wire block at `coords` has joined the groups `ids` that lie around
    /// it. Around no group, the wire makes a new group that is off. Around one group, the
    /// wire joins it. Around several, they become one new group. In each case the wire block
    /// stands for its group afterwards.
    pub open spec fn wire_joined(self, coords: BlockCoordinate, ids: Set<usize>) -> LogicGraphView {
        if ids =~= Set::<usize>::empty() {
            self.with_new_group(GroupState { signal: 0, recent_wire_coords: Some(coords) })
        } else if ids =~= Set::<usize>::empty().insert(ids.choose()) {
            self.with_state(
                ids.choose(),
                GroupState {
                    signal: self.groups[ids.choose()].signal,
                    recent_wire_coords: Some(coords),
                },
            )
        } else {
            self.merged(ids, coords)
        }
    }

    /// The graph after the port of the block at `coords` that points along `direction` has
    /// left it, if the port faces anything inside a structure of the given size.
    pub open spec fn facing_port_removed(
        self,
        dimensions: BlockCoordinate,
        port: Port,
        port_type: PortType,
    ) -> LogicGraphView {
        if port.spec_facing(dimensions).is_some() {
            self.port_removed(port, port_type)
        } else {
            self
        }
    }

    /// The graph after the ports of the block at `coords` that point along `directions` have
    /// left it one after the other.
    pub open spec fn ports_removed(
        self,
        dimensions: BlockCoordinate,
        coords: BlockCoordinate,
        directions: Seq<BlockDirection>,
        port_type: PortType,
    ) -> LogicGraphView
        decreases directions.len(),
    {
        if directions.len() == 0 {
            self
        } else {
            self.ports_removed(
                dimensions,
                coords,
                directions.drop_last(),
                port_type,
            ).facing_port_removed(
                dimensions,
                Port { coords, direction: directions.last() },
                port_type,
            )
        }
    }

    /// The graph after what lies around the block at `coords` has been put into groups
    /// again, one direction of `directions` after the other, together with what the searches
    /// have marked. Each search goes from what the block faces in that direction to all that
    /// wires lead to and the searches before have not been through, and makes a group with
    /// the signal `signal` for the ports it finds that are in none.
    pub open spec fn rederived(
        self,
        world: LogicWorld,
        signal: i32,
        coords: BlockCoordinate,
        directions: Seq<BlockDirection>,
    ) -> (LogicGraphView, Set<Port>)
        decreases directions.len(),
    {
        if directions.len() == 0 {
            (self, Port::spec_all_for(coords))
        } else {
            let (view, blocked) = self.rederived(world, signal, coords, directions.drop_last());
            match (Port { coords, direction: directions.last() }).spec_facing(world.dimensions) {
                None => (view, blocked),
                Some(start) => (
                    view.attached(
                        spec_ports_reached(world, blocked, start),
                        signal,
                        spec_first_wire(world, blocked, start),
                    ),
                    Set::new(|p: Port| spec_marks_after(world, blocked, start, p)),
                ),
            }
        }
    }
}

/// Whether `after` is `before` with a wire block placed at `coords` whose wire faces point
/// along `directions`: a search in each direction has looked for a group, and the wire has
/// joined the groups that were found. A block without wire faces changes nothing.
pub open spec fn spec_wire_placed(
    before: LogicGraphView,
    after: LogicGraphView,
    world: LogicWorld,
    coords: BlockCoordinate,
    directions: Seq<BlockDirection>,
) -> bool {
    if directions.len() == 0 {
        after == before
    } else {
        exists|found: Seq<Option<usize>>|
            found.len() == directions.len() && (forall|i: int|
                0 <= i < directions.len() ==> #[trigger] spec_found_from(
                    before,
                    world,
                    coords,
                    directions[i],
                    found[i],
                )) && after == #[trigger] before.wire_joined(coords, spec_groups_found(found))
    }
}

/// Whether `after` is `before` with the logic block `logic_block`, turned to `rotation`,
/// added at `coords`: first its input ports are placed, then its output ports, then its
/// wire faces join the groups around them.
pub open spec fn spec_block_added(
    before: LogicGraphView,
    after: LogicGraphView,
    world: LogicWorld,
    logic_block: &LogicBlock,
    rotation: BlockFace,
    coords: BlockCoordinate,
) -> bool {
    exists|with_inputs: LogicGraphView, with_outputs: LogicGraphView|
        #![trigger spec_ports_placed(
            with_inputs,
            with_outputs,
            world,
            coords,
            logic_block.spec_directions_with(
                Some(LogicConnection::Port(PortType::Output)),
                rotation,
            ),
            PortType::Output,
        )]
        {
            &&& spec_ports_placed(
                before,
                with_inputs,
                world,
                coords,
                logic_block.spec_directions_with(
                    Some(LogicConnection::Port(PortType::Input)),
                    rotation,
                ),
                PortType::Input,
            )
            &&& spec_ports_placed(
                with_inputs,
                with_outputs,
                world,
                coords,
                logic_block.spec_directions_with(
                    Some(LogicConnection::Port(PortType::Output)),
                    rotation,
                ),
                PortType::Output,
            )
            &&& spec_wire_placed(
                with_outputs,
                after,
                world,
                coords,
                logic_block.spec_directions_with(Some(LogicConnection::Wire), rotation),
            )
        }
}

/// Whether `found` is a right answer to the question which group the wire block at `coords`
/// is in: a group that the block stands for, or, where it stands for none, the group that a
/// search through its wire faces gets to.
pub open spec fn spec_group_of_wire(
    view: LogicGraphView,
    world: LogicWorld,
    coords: BlockCoordinate,
    directions: Seq<BlockDirection>,
    found: Option<usize>,
) -> bool {
    ||| found matches Some(group) && view.stands_for(coords, group)
    ||| (forall|group: usize| !view.stands_for(coords, group)) && spec_found_by_faces(
        view,
        world,
        coords,
        directions,
        found,
    )
}

/// Whether `after` is `before` with the wire block at `coords`, whose wire faces point along
/// `directions`, taken away: the group that the block was in is removed with all its ports,
/// and what lies around the block is put into groups again, which take over the signal of
/// the removed group. A block without wire faces changes nothing.
pub open spec fn spec_wire_removed(
    before: LogicGraphView,
    after: LogicGraphView,
    world: LogicWorld,
    coords: BlockCoordinate,
    directions: Seq<BlockDirection>,
) -> bool {
    if directions.len() == 0 {
        after == before
    } else {
        exists|found: Option<usize>| #[trigger]
            spec_group_of_wire(before, world, coords, directions, found) && after == (match found {
                Some(group) => before.without_group(group).rederived(
                    world,
                    before.groups[group].signal,
                    coords,
                    directions,
                ).0,
                None => before.rederived(world, 0, coords, directions).0,
            })
    }
}

/// Whether `after` is `before` with the logic block `logic_block`, turned to `rotation`,
/// removed from `coords`: first its input ports leave, then its output ports, then its wire
/// is taken away.
pub open spec fn spec_block_removed(
    before: LogicGraphView,
    after: LogicGraphView,
    world: LogicWorld,
    logic_block: &LogicBlock,
    rotation: BlockFace,
    coords: BlockCoordinate,
) -> bool {
    spec_wire_removed(
        before.ports_removed(
            world.dimensions,
            coords,
            logic_block.spec_directions_with(Some(LogicConnection::Port(PortType::Input)), rotation),
            PortType::Input,
        ).ports_removed(
            world.dimensions,
            coords,
            logic_block.spec_directions_with(
                Some(LogicConnection::Port(PortType::Output)),
                rotation,
            ),
            PortType::Output,
        ),
        after,
        world,
        coords,
        logic_block.spec_directions_with(Some(LogicConnection::Wire), rotation),
    )
}

impl LogicGraph {
    /// Whether the group `id` has neither a port nor a wire block that stands for it.
    fn is_bare(&self, id: usize) -> (bare: bool)
        requires
            self.consistent(),
            self@.groups.contains_key(id),
        ensures
            bare == (!self@.has_port(id) && self@.groups[id].recent_wire_coords.is_none()),
    {
        let found = self.group(id);
        let group = found.unwrap();
        proof {
            self.lemma_ports_of_group(id, PortType::Input);
            self.lemma_ports_of_group(id, PortType::Output);
            let inputs = group.spec_ports(PortType::Input);
            let outputs = group.spec_ports(PortType::Output);
            if inputs.len() > 0 {
                assert(inputs.to_set().contains(inputs[0]));
                assert(self@.ports_of(id, PortType::Input).contains(inputs[0]));
            }
            if outputs.len() > 0 {
                assert(outputs.to_set().contains(outputs[0]));
                assert(self@.ports_of(id, PortType::Output).contains(outputs[0]));
            }
            if self@.has_port(id) {
                let (p, t) = choose|p: Port, t: PortType| #[trigger]
                    self@.ports_of(id, t).contains(p);
                assert(group.spec_ports(t).to_set().contains(p));
                assert(group.spec_ports(t).contains(p));
            }
        }
        group.consumers().len() == 0 && group.producers().len() == 0
            && group.recent_wire_coords().is_none()
    }

    /// Takes the port that points along `direction` from the block at `coords` out of the
    /// graph. Its group goes with it if the port was the last thing the group had: if no
    /// other port is left in it and no wire block stands for it.
    pub fn remove_port(&mut self, coords: BlockCoordinate, direction: BlockDirection, port_type: PortType)
        requires
            old(self).wf(),
        ensures
            final(self).wf(),
            final(self)@ == old(self)@.port_removed(Port { coords, direction }, port_type),
    {
        let port = Port::new(coords, direction);
        match self.detach_port(port, port_type) {
            None => {
                proof {
                    assert(old(self)@.port_groups(port_type).remove(port) =~= old(
                        self,
                    )@.port_groups(port_type));
                    assert(self@ == old(self)@);
                }
            },
            Some(group) => {
                let ghost detached = self@;
                proof {
                    assert(old(self)@.port_groups(port_type).contains_key(port));
                    assert(detached.groups.contains_key(group));
                }
                if self.is_bare(group) {
                    self.remove_group(group);
                    proof {
                        assert forall|g: usize| #[trigger] self@.groups.contains_key(g) implies self@.has_port(
                            g,
                        ) || self@.groups[g].recent_wire_coords.is_some() by {
                            assert(old(self)@.groups.contains_key(g));
                            if old(self)@.has_port(g) {
                                let (p, t) = choose|p: Port, t: PortType| #[trigger]
                                    old(self)@.ports_of(g, t).contains(p);
                                assert(self@.ports_of(g, t).contains(p));
                            }
                        }
                    }
                } else {
                    proof {
                        assert forall|g: usize| #[trigger] self@.groups.contains_key(g) implies self@.has_port(
                            g,
                        ) || self@.groups[g].recent_wire_coords.is_some() by {
                            if g != group && old(self)@.has_port(g) {
                                let (p, t) = choose|p: Port, t: PortType| #[trigger]
                                    old(self)@.ports_of(g, t).contains(p);
                                assert(self@.ports_of(g, t).contains(p));
                            }
                        }
                    }
                }
            },
        }
    }

    /// Finds the group that one gets to from the face of the block at `coords` that points
    /// along `encountered_direction`. An input or output port tells its own group. A wire
    /// tells the group that its block stands for; a wire block that stands for none passes
    /// the question on through its other wire faces, and `visited` keeps the search from
    /// going through a block twice. A face without a logic connection has no group.
    ///
    /// The search marks in `visited` wire faces of wire blocks it gets to and nothing else;
    /// from a face that is no wire it marks nothing.
    pub fn find_group(
        &self,
        coords: BlockCoordinate,
        encountered_direction: BlockDirection,
        structure: &Structure,
        visited: &mut PortSet,
        blocks: &Registry<Block>,
        logic_blocks: &Registry<LogicBlock>,
    ) -> (found: Option<usize>)
        requires
            structure.wf(),
            self.consistent(),
        ensures
            is_search_result(
                self@,
                world_of(structure, blocks, logic_blocks),
                old(visited)@,
                Port { coords, direction: encountered_direction },
                found,
            ),
            spec_shortcut_taken(
                self@,
                world_of(structure, blocks, logic_blocks),
                old(visited)@,
                Port { coords, direction: encountered_direction },
                found,
            ),
            forall|p: Port| old(visited)@.contains(p) ==> final(visited)@.contains(p),
            forall|p: Port|
                final(visited)@.contains(p) ==> spec_marks_after(
                    world_of(structure, blocks, logic_blocks),
                    old(visited)@,
                    Port { coords, direction: encountered_direction },
                    p,
                ),
            !world_of(structure, blocks, logic_blocks).is_wire(
                Port { coords, direction: encountered_direction },
            ) ==> final(visited)@ == old(visited)@,
            world_of(structure, blocks, logic_blocks).connection(
                Port { coords, direction: encountered_direction },
            ).is_none() ==> found.is_none(),
            match found {
                Some(group) => self@.groups.contains_key(group),
                None => true,
            },
    {
        let ghost world = world_of(structure, blocks, logic_blocks);
        let ghost start = Port { coords, direction: encountered_direction };
        let ghost blocked = visited@;
        let exploration = self.explore(
            Port::new(coords, encountered_direction),
            structure,
            visited,
            blocks,
            logic_blocks,
            true,
        );
        proof {
            if !world.is_wire(start) {
                // From a face that is no wire nothing but the face itself is reached, so no
                // wire block is, and nothing is marked.
                assert forall|p: Port| visited@.contains(p) implies blocked.contains(p) by {
                    if world.reaches_wire_block(blocked, start, p.coords) {
                        let e = choose|e: Port| #[trigger]
                            world.reaches(blocked, start, e) && world.is_wire(e) && e.coords
                                == p.coords;
                        crate::logic::world::lemma_reach_from_non_wire(world, blocked, start, e);
                    }
                }
                assert(visited@ =~= blocked);
            }
            if world.connection(start).is_none() && exploration.group.is_some() {
                let at = choose|at: Port| #[trigger]
                    world.reaches(blocked, start, at) && crate::logic::search::anchored(
                        self@,
                        world,
                        at,
                        exploration.group.unwrap(),
                    );
                crate::logic::world::lemma_reach_from_non_wire(world, blocked, start, at);
            }
        }
        exploration.group
    }

    /// Explores what is connected to the face of the block at `coords` that points along
    /// `encountered_direction`, and puts every input and output port found there that is in
    /// no group into one new group with the signal `signal`. The wire block that the search
    /// starts in, if it starts in one, stands for the new group. Where no such port is found
    /// no group is made. Returns the id of the new group.
    ///
    /// `visited` holds what earlier searches have been through; this search does not go
    /// there again, and adds what it has been through.
    pub fn rename_group(
        &mut self,
        signal: i32,
        coords: BlockCoordinate,
        encountered_direction: BlockDirection,
        structure: &Structure,
        visited: &mut PortSet,
        blocks: &Registry<Block>,
        logic_blocks: &Registry<LogicBlock>,
    ) -> (created: Option<usize>)
        requires
            structure.wf(),
            old(self).wf(),
            old(self)@.next_group_id < usize::MAX,
        ensures
            final(self).wf(),
            ({
                let world = world_of(structure, blocks, logic_blocks);
                let start = Port { coords, direction: encountered_direction };
                let reached = spec_ports_reached(world, old(visited)@, start);
                &&& final(self)@ == old(self)@.attached(
                    reached,
                    signal,
                    spec_first_wire(world, old(visited)@, start),
                )
                &&& created == if final(self)@ == old(self)@ {
                    None
                } else {
                    Some(old(self)@.next_group_id)
                }
                &&& forall|p: Port|
                    final(visited)@.contains(p) <==> spec_marks_after(
                        world,
                        old(visited)@,
                        start,
                        p,
                    )
            }),
    {
        let ghost world = world_of(structure, blocks, logic_blocks);
        let ghost start = Port { coords, direction: encountered_direction };
        let ghost blocked = visited@;
        let ghost reached = spec_ports_reached(world, blocked, start);
        let ghost before = self@;
        let exploration = self.explore(
            Port::new(coords, encountered_direction),
            structure,
            visited,
            blocks,
            logic_blocks,
            false,
        );
        let wire = exploration.wire;
        let ports = exploration.ports;
        let mut created: Option<usize> = None;
        let mut k: usize = 0;
        proof {
            assert(ports@.take(0).to_set() =~= Set::<(Port, PortType)>::empty());
        }
        while k < ports.len()
            invariant
                k <= ports.len(),
                self.wf(),
                before.inv(),
                before == old(self)@,
                before.next_group_id < usize::MAX,
                self@ == before.attached(ports@.take(k as int).to_set(), signal, wire),
                created == if exists|p: Port, t: PortType|
                    before.is_loose(ports@.take(k as int).to_set(), p, t) {
                    Some(before.next_group_id)
                } else {
                    None
                },
            decreases ports.len() - k,
        {
            let (port, port_type) = ports[k];
            let ghost done = ports@.take(k as int).to_set();
            let ghost next = ports@.take(k + 1).to_set();
            let ghost mid = self@;
            proof {
                crate::logic::logic_graph::lemma_take_to_set(ports@, k as int);
                assert(next == done.insert((port, port_type)));
            }
            if self.group_of(port, port_type).is_none() {
                let id = match created {
                    Some(id) => id,
                    None => {
                        proof {
                            assert(mid == before);
                        }
                        let id = self.new_group(signal, wire);
                        created = Some(id);
                        id
                    },
                };
                proof {
                    assert(self@.groups.contains_key(id));
                    assert(before.group_of(port, port_type).is_none()) by {
                        if before.port_groups(port_type).contains_key(port) {
                            assert(mid.port_groups(port_type).contains_key(port));
                        }
                    }
                    assert(before.is_loose(next, port, port_type));
                }
                self.add_port(port, id, port_type);
                proof {
                    let target = before.attached(next, signal, wire);
                    assert forall|p: Port, t: PortType|
                        before.is_loose(next, p, t) <==> before.is_loose(done, p, t) || (p == port
                            && t == port_type) by {}
                    assert(self@.groups =~= target.groups);
                    assert(self@.input_groups =~= target.input_groups);
                    assert(self@.output_groups =~= target.output_groups);
                    assert(self@ == target);
                    assert(self@.ports_of(id, port_type).contains(port));
                    assert(self@.has_port(id));
                    assert forall|g: usize| #[trigger] self@.groups.contains_key(g) implies self@.has_port(
                        g,
                    ) || self@.groups[g].recent_wire_coords.is_some() by {
                        if g != id {
                            assert(mid.groups.contains_key(g));
                            if mid.has_port(g) {
                                let (p, t) = choose|p: Port, t: PortType| #[trigger]
                                    mid.ports_of(g, t).contains(p);
                                assert(p != port || t != port_type);
                                assert(self@.ports_of(g, t).contains(p));
                            }
                        }
                    }
                }
            } else {
                proof {
                    assert(!before.is_loose(next, port, port_type) || before.is_loose(
                        done,
                        port,
                        port_type,
                    )) by {
                        if before.is_loose(next, port, port_type) && !before.is_loose(
                            done,
                            port,
                            port_type,
                        ) {
                            // Then nothing has put the port into a group, yet it is in one.
                            assert(!mid.port_groups(port_type).contains_key(port));
                        }
                    }
                    assert forall|p: Port, t: PortType|
                        before.is_loose(next, p, t) <==> before.is_loose(done, p, t) by {}
                    let target = before.attached(next, signal, wire);
                    assert(self@.groups =~= target.groups);
                    assert(self@.input_groups =~= target.input_groups);
                    assert(self@.output_groups =~= target.output_groups);
                    assert(self@ == target);
                }
            }
            k += 1;
        }
        proof {
            assert(ports@.take(ports@.len() as int) == ports@);
            assert(ports@.to_set() =~= reached) by {
                assert forall|pair: (Port, PortType)|
                    ports@.to_set().contains(pair) <==> reached.contains(pair) by {
                    assert(ports@.contains((pair.0, pair.1)) <==> world.reaches(
                        blocked,
                        start,
                        pair.0,
                    ) && world.connection(pair.0) == Some(LogicConnection::Port(pair.1)));
                    assert((pair.0, pair.1) == pair);
                }
            }
            if exists|p: Port, t: PortType| before.is_loose(reached, p, t) {
                assert(self@.next_group_id != before.next_group_id);
            }
        }
        created
    }

    /// Places the port of the block at `coords` that points along `direction`: the port
    /// joins the group that a search from what it faces gets to, or a new group that is off
    /// where the search gets to none. A port that faces nothing inside the structure is not
    /// placed.
    pub fn neighbor_port(
        &mut self,
        coords: BlockCoordinate,
        direction: BlockDirection,
        port_type: PortType,
        structure: &Structure,
        blocks: &Registry<Block>,
        logic_blocks: &Registry<LogicBlock>,
    )
        requires
            structure.wf(),
            old(self).wf(),
            old(self)@.next_group_id < usize::MAX,
        ensures
            final(self).wf(),
            spec_port_placed(
                old(self)@,
                final(self)@,
                world_of(structure, blocks, logic_blocks),
                Port { coords, direction },
                port_type,
            ),
            old(self)@.next_group_id <= final(self)@.next_group_id <= old(self)@.next_group_id + 1,
    {
        let port = Port::new(coords, direction);
        match port.facing(structure.block_dimensions()) {
            None => {},
            Some(start) => {
                self.remove_port(coords, direction, port_type);
                let ghost cleaned = self@;
                let mut visited = Port::all_for(coords);
                let found = self.find_group(
                    start.coords,
                    start.direction,
                    structure,
                    &mut visited,
                    blocks,
                    logic_blocks,
                );
                let id = match found {
                    Some(group) => group,
                    None => self.new_group(0, None),
                };
                self.add_port(port, id, port_type);
                proof {
                    assert(self@ == cleaned.port_placed(port, port_type, found));
                    assert(!cleaned.port_groups(port_type).contains_key(port));
                    assert(self@.ports_of(id, port_type).contains(port));
                    assert(self@.has_port(id));
                    assert forall|g: usize| #[trigger] self@.groups.contains_key(g) implies self@.has_port(
                        g,
                    ) || self@.groups[g].recent_wire_coords.is_some() by {
                        if g != id {
                            assert(cleaned.groups.contains_key(g));
                            if cleaned.has_port(g) {
                                let (p, t) = choose|p: Port, t: PortType| #[trigger]
                                    cleaned.ports_of(g, t).contains(p);
                                assert(self@.ports_of(g, t).contains(p));
                            }
                        }
                    }
                }
            },
        }
    }

    /// Places the ports of one kind of the block at `coords`, one per face of `faces`.
    fn place_ports(
        &mut self,
        faces: &Vec<BlockFace>,
        rotation: BlockFace,
        coords: BlockCoordinate,
        port_type: PortType,
        structure: &Structure,
        blocks: &Registry<Block>,
        logic_blocks: &Registry<LogicBlock>,
    )
        requires
            structure.wf(),
            old(self).wf(),
            old(self)@.next_group_id + faces@.len() <= usize::MAX,
        ensures
            final(self).wf(),
            spec_ports_placed(
                old(self)@,
                final(self)@,
                world_of(structure, blocks, logic_blocks),
                coords,
                faces@.map_values(|face: BlockFace| rotation.spec_direction_of(face)),
                port_type,
            ),
            old(self)@.next_group_id <= final(self)@.next_group_id <= old(self)@.next_group_id
                + faces@.len(),
    {
        let ghost world = world_of(structure, blocks, logic_blocks);
        let ghost directions = faces@.map_values(|face: BlockFace| rotation.spec_direction_of(face));
        let mut k: usize = 0;
        proof {
            assert(directions.take(0) =~= Seq::<BlockDirection>::empty());
        }
        while k < faces.len()
            invariant
                k <= faces.len(),
                structure.wf(),
                self.wf(),
                world == world_of(structure, blocks, logic_blocks),
                directions == faces@.map_values(|face: BlockFace| rotation.spec_direction_of(face)),
                old(self)@.next_group_id + faces@.len() <= usize::MAX,
                old(self)@.next_group_id <= self@.next_group_id <= old(self)@.next_group_id + k,
                spec_ports_placed(
                    old(self)@,
                    self@,
                    world,
                    coords,
                    directions.take(k as int),
                    port_type,
                ),
            decreases faces.len() - k,
        {
            let ghost mid = self@;
            let direction = rotation.direction_of(faces[k]);
            self.neighbor_port(coords, direction, port_type, structure, blocks, logic_blocks);
            proof {
                let longer = directions.take(k + 1);
                assert(longer.drop_last() =~= directions.take(k as int));
                assert(longer.last() == direction);
                assert(spec_ports_placed(
                    old(self)@,
                    mid,
                    world,
                    coords,
                    longer.drop_last(),
                    port_type,
                ));
                assert(spec_port_placed(
                    mid,
                    self@,
                    world,
                    Port { coords, direction: longer.last() },
                    port_type,
                ));
                assert(longer.len() > 0);
                lemma_ports_placed_step(old(self)@, mid, self@, world, coords, longer, port_type);
            }
            k += 1;
        }
        proof {
            assert(directions.take(faces@.len() as int) =~= directions);
        }
    }

    /// Takes the ports of one kind of the block at `coords` out of the graph, one per face
    /// of `faces`. A port that faces nothing inside the structure is left alone.
    fn remove_ports(
        &mut self,
        faces: &Vec<BlockFace>,
        rotation: BlockFace,
        coords: BlockCoordinate,
        port_type: PortType,
        structure: &Structure,
    )
        requires
            structure.wf(),
            old(self).wf(),
        ensures
            final(self).wf(),
            final(self)@ == old(self)@.ports_removed(
                structure.base().spec_block_dimensions(),
                coords,
                faces@.map_values(|face: BlockFace| rotation.spec_direction_of(face)),
                port_type,
            ),
            final(self)@.next_group_id == old(self)@.next_group_id,
    {
        let dimensions = structure.block_dimensions();
        let ghost directions = faces@.map_values(|face: BlockFace| rotation.spec_direction_of(face));
        let mut k: usize = 0;
        proof {
            assert(directions.take(0) =~= Seq::<BlockDirection>::empty());
        }
        while k < faces.len()
            invariant
                k <= faces.len(),
                self.wf(),
                dimensions == structure.base().spec_block_dimensions(),
                directions == faces@.map_values(|face: BlockFace| rotation.spec_direction_of(face)),
                self@.next_group_id == old(self)@.next_group_id,
                self@ == old(self)@.ports_removed(
                    dimensions,
                    coords,
                    directions.take(k as int),
                    port_type,
                ),
            decreases faces.len() - k,
        {
            let direction = rotation.direction_of(faces[k]);
            if Port::new(coords, direction).facing(dimensions).is_some() {
                self.remove_port(coords, direction, port_type);
            }
            proof {
                let longer = directions.take(k + 1);
                assert(longer.drop_last() =~= directions.take(k as int));
                assert(longer.last() == direction);
            }
            k += 1;
        }
        proof {
            assert(directions.take(faces@.len() as int) =~= directions);
        }
    }

    /// Finds the group that one gets to through the wire faces of the block at `coords`:
    /// the faces of `logic_block` that are wires are tried in their order, and the first
    /// group found is returned. No search passes through the block itself.
    pub fn find_group_all_faces(
        &self,
        logic_block: &LogicBlock,
        rotation: BlockFace,
        coords: BlockCoordinate,
        structure: &Structure,
        blocks: &Registry<Block>,
        logic_blocks: &Registry<LogicBlock>,
    ) -> (found: Option<usize>)
        requires
            structure.wf(),
            self.consistent(),
        ensures
            spec_found_by_faces(
                self@,
                world_of(structure, blocks, logic_blocks),
                coords,
                logic_block.spec_directions_with(Some(LogicConnection::Wire), rotation),
                found,
            ),
            match found {
                Some(group) => self@.groups.contains_key(group),
                None => true,
            },
    {
        let ghost world = world_of(structure, blocks, logic_blocks);
        let ghost directions = logic_block.spec_directions_with(
            Some(LogicConnection::Wire),
            rotation,
        );
        let faces = logic_block.wire_faces();
        let dimensions = structure.block_dimensions();
        let mut k: usize = 0;
        while k < faces.len()
            invariant
                k <= faces.len(),
                structure.wf(),
                self.consistent(),
                world == world_of(structure, blocks, logic_blocks),
                dimensions == world.dimensions,
                faces@ == logic_block.spec_faces_with(Some(LogicConnection::Wire)),
                directions == faces@.map_values(|face: BlockFace| rotation.spec_direction_of(face)),
                forall|j: int|
                    0 <= j < k ==> #[trigger] spec_found_from(
                        self@,
                        world,
                        coords,
                        directions[j],
                        None,
                    ),
            decreases faces.len() - k,
        {
            let direction = rotation.direction_of(faces[k]);
            match Port::new(coords, direction).facing(dimensions) {
                Some(start) => {
                    let mut visited = Port::all_for(coords);
                    let found = self.find_group(
                        start.coords,
                        start.direction,
                        structure,
                        &mut visited,
                        blocks,
                        logic_blocks,
                    );
                    match found {
                        Some(group) => {
                            proof {
                                assert(spec_found_from(
                                    self@,
                                    world,
                                    coords,
                                    directions[k as int],
                                    Some(group),
                                ));
                            }
                            return Some(group);
                        },
                        None => {},
                    }
                },
                None => {},
            }
            k += 1;
        }
        None
    }

    /// Adds a logic block to the graph. `rotation` tells how the block at `coords` is turned.
    ///
    /// Each input port joins the group it is connected to, or a new group if it is connected
    /// to none; then each output port does the same. If the block has wire faces, the wire
    /// joins the groups around it: none around it makes a new group that the block stands
    /// for, one around it gets the block to stand for it, and several become one group.
    pub fn add_logic_block(
        &mut self,
        logic_block: &LogicBlock,
        rotation: BlockFace,
        coords: BlockCoordinate,
        structure: &Structure,
        blocks: &Registry<Block>,
        logic_blocks: &Registry<LogicBlock>,
    )
        requires
            structure.wf(),
            old(self).wf(),
            old(self)@.next_group_id + 13 <= usize::MAX,
        ensures
            final(self).wf(),
            spec_block_added(
                old(self)@,
                final(self)@,
                world_of(structure, blocks, logic_blocks),
                logic_block,
                rotation,
                coords,
            ),
            old(self)@.next_group_id <= final(self)@.next_group_id <= old(self)@.next_group_id + 13,
    {
        let ghost world = world_of(structure, blocks, logic_blocks);
        // Input faces join their connected group as consumers, output faces as producers.
        let input_faces = logic_block.input_faces();
        self.place_ports(
            &input_faces,
            rotation,
            coords,
            PortType::Input,
            structure,
            blocks,
            logic_blocks,
        );
        let ghost with_inputs = self@;
        let output_faces = logic_block.output_faces();
        self.place_ports(
            &output_faces,
            rotation,
            coords,
            PortType::Output,
            structure,
            blocks,
            logic_blocks,
        );
        let ghost with_outputs = self@;
        // Wire faces connect all groups around the block.
        let wire_faces = logic_block.wire_faces();
        let ghost directions = logic_block.spec_directions_with(
            Some(LogicConnection::Wire),
            rotation,
        );
        if wire_faces.len() > 0 {
            let dimensions = structure.block_dimensions();
            let mut group_ids: Vec<usize> = Vec::new();
            let ghost mut found: Seq<Option<usize>> = Seq::empty();
            let mut k: usize = 0;
            proof {
                assert(spec_groups_found(found) =~= Set::<usize>::empty());
                assert(group_ids@.to_set() =~= Set::<usize>::empty());
            }
            while k < wire_faces.len()
                invariant
                    k <= wire_faces.len(),
                    structure.wf(),
                    self.wf(),
                    self@ == with_outputs,
                    world == world_of(structure, blocks, logic_blocks),
                    dimensions == world.dimensions,
                    wire_faces@ == logic_block.spec_faces_with(Some(LogicConnection::Wire)),
                    directions == wire_faces@.map_values(
                        |face: BlockFace| rotation.spec_direction_of(face),
                    ),
                    found.len() == k,
                    forall|i: int|
                        0 <= i < k ==> #[trigger] spec_found_from(
                            with_outputs,
                            world,
                            coords,
                            directions[i],
                            found[i],
                        ),
                    group_ids@.no_duplicates(),
                    group_ids@.to_set() == spec_groups_found(found),
                    forall|i: int|
                        0 <= i < group_ids@.len() ==> with_outputs.groups.contains_key(
                            #[trigger] group_ids@[i],
                        ),
                decreases wire_faces.len() - k,
            {
                let direction = rotation.direction_of(wire_faces[k]);
                let mut answer: Option<usize> = None;
                match Port::new(coords, direction).facing(dimensions) {
                    Some(start) => {
                        let mut visited = Port::all_for(coords);
                        answer =
                        self.find_group(
                            start.coords,
                            start.direction,
                            structure,
                            &mut visited,
                            blocks,
                            logic_blocks,
                        );
                    },
                    None => {},
                }
                let ghost found_before = found;
                let ghost ids_before = group_ids@;
                proof {
                    found = found.push(answer);
                    assert forall|i: int| 0 <= i < k + 1 implies #[trigger] spec_found_from(
                        with_outputs,
                        world,
                        coords,
                        directions[i],
                        found[i],
                    ) by {
                        if i < k {
                            assert(found[i] == found_before[i]);
                        }
                    }
                    assert forall|g: usize|
                        spec_groups_found(found).contains(g) <==> spec_groups_found(
                            found_before,
                        ).contains(g) || answer == Some(g) by {
                        if found.contains(Some(g)) {
                            let i = choose|i: int| 0 <= i < found.len() && found[i] == Some(g);
                            if i < k {
                                assert(found_before[i] == Some(g));
                            }
                        }
                        if found_before.contains(Some(g)) {
                            let i = choose|i: int|
                                0 <= i < found_before.len() && found_before[i] == Some(g);
                            assert(found[i] == Some(g));
                        }
                        if answer == Some(g) {
                            assert(found[k as int] == Some(g));
                        }
                    }
                }
                match answer {
                    Some(group) => {
                        let mut known = false;
                        let mut i: usize = 0;
                        while i < group_ids.len()
                            invariant
                                i <= group_ids.len(),
                                known <==> exists|j: int| 0 <= j < i && group_ids@[j] == group,
                            decreases group_ids.len() - i,
                        {
                            if group_ids[i] == group {
                                known = true;
                            }
                            i += 1;
                        }
                        if !known {
                            group_ids.push(group);
                            proof {
                                assert(group_ids@ == ids_before.push(group));
                                assert(group_ids@.to_set() =~= ids_before.to_set().insert(group)) by {
                                    assert(group_ids@.take(ids_before.len() as int) == ids_before);
                                    crate::logic::logic_graph::lemma_take_to_set(
                                        group_ids@,
                                        ids_before.len() as int,
                                    );
                                    assert(group_ids@.take(group_ids@.len() as int) == group_ids@);
                                }
                                assert(group_ids@.to_set() =~= spec_groups_found(found));
                            }
                        } else {
                            proof {
                                assert(ids_before.contains(group));
                                assert(ids_before.to_set().contains(group));
                                assert(group_ids@.to_set() =~= spec_groups_found(found));
                            }
                        }
                    },
                    None => {
                        proof {
                            assert(group_ids@.to_set() =~= spec_groups_found(found));
                        }
                    },
                }
                k += 1;
            }
            let ghost ids = spec_groups_found(found);
            proof {
                assert(ids == group_ids@.to_set());
            }
            // No group around makes a new one, one group around takes the wire in, and
            // several groups around are merged.
            if group_ids.len() == 0 {
                proof {
                    assert(ids =~= Set::<usize>::empty());
                }
                self.new_group(0, Some(coords));
                proof {
                    let id = with_outputs.next_group_id;
                    assert forall|g: usize| #[trigger] self@.groups.contains_key(g) implies self@.has_port(
                        g,
                    ) || self@.groups[g].recent_wire_coords.is_some() by {
                        if g != id && with_outputs.has_port(g) {
                            lemma_has_port_kept(with_outputs, self@, g);
                        }
                    }
                }
            } else if group_ids.len() == 1 {
                let group = group_ids[0];
                proof {
                    assert(ids.contains(group)) by {
                        assert(group_ids@.to_set().contains(group_ids@[0]));
                    }
                    assert(ids =~= Set::<usize>::empty().insert(group)) by {
                        assert forall|g: usize| ids.contains(g) implies g == group by {
                            assert(group_ids@.contains(g));
                        }
                    }
                    assert(ids.choose() == group) by {
                        assert(ids.contains(ids.choose()));
                    }
                }
                let signal = self.group_signal(group);
                self.set_group_state(group, signal, Some(coords));
                proof {
                    assert forall|g: usize| #[trigger] self@.groups.contains_key(g) implies self@.has_port(
                        g,
                    ) || self@.groups[g].recent_wire_coords.is_some() by {
                        if g != group && with_outputs.has_port(g) {
                            lemma_has_port_kept(with_outputs, self@, g);
                        }
                    }
                }
            } else {
                proof {
                    let a = group_ids@[0];
                    let b = group_ids@[1];
                    assert(a != b);
                    assert(ids.contains(a)) by {
                        assert(group_ids@.to_set().contains(group_ids@[0]));
                    }
                    assert(ids.contains(b)) by {
                        assert(group_ids@.to_set().contains(group_ids@[1]));
                    }
                    assert(!(ids =~= Set::<usize>::empty()));
                    if ids =~= Set::<usize>::empty().insert(ids.choose()) {
                        assert(a == ids.choose());
                        assert(b == ids.choose());
                    }
                }
                self.merge_adjacent_groups(&group_ids, coords);
                proof {
                    let id = with_outputs.next_group_id;
                    assert forall|g: usize| #[trigger] self@.groups.contains_key(g) implies self@.has_port(
                        g,
                    ) || self@.groups[g].recent_wire_coords.is_some() by {
                        if g != id && with_outputs.has_port(g) {
                            assert(!ids.contains(g));
                            let (p, t) = choose|p: Port, t: PortType| #[trigger]
                                with_outputs.ports_of(g, t).contains(p);
                            assert(self@.ports_of(g, t).contains(p));
                        }
                    }
                }
            }
            proof {
                assert(self@ == with_outputs.wire_joined(coords, ids));
                assert(spec_wire_placed(with_outputs, self@, world, coords, directions));
            }
        }
        proof {
            assert(spec_ports_placed(
                with_inputs,
                with_outputs,
                world,
                coords,
                logic_block.spec_directions_with(
                    Some(LogicConnection::Port(PortType::Output)),
                    rotation,
                ),
                PortType::Output,
            ));
            assert(spec_block_added(old(self)@, self@, world, logic_block, rotation, coords));
        }
    }

    /// Removes a logic block from the graph. `rotation` tells how the block at `coords` was
    /// turned.
    ///
    /// Each input and output port leaves its group. If the block has wire faces, the group
    /// it was in is removed altogether, and what lies around the block is explored anew: one
    /// search per wire face, none going where another has been, each making a new group for
    /// the ports it finds. The new groups take over the signal of the removed one. A search
    /// that finds no port makes no group.
    pub fn remove_logic_block(
        &mut self,
        logic_block: &LogicBlock,
        rotation: BlockFace,
        coords: BlockCoordinate,
        structure: &Structure,
        blocks: &Registry<Block>,
        logic_blocks: &Registry<LogicBlock>,
    )
        requires
            structure.wf(),
            old(self).wf(),
            old(self)@.next_group_id + 6 <= usize::MAX,
        ensures
            final(self).wf(),
            spec_block_removed(
                old(self)@,
                final(self)@,
                world_of(structure, blocks, logic_blocks),
                logic_block,
                rotation,
                coords,
            ),
            old(self)@.next_group_id <= final(self)@.next_group_id <= old(self)@.next_group_id + 6,
    {
        let ghost world = world_of(structure, blocks, logic_blocks);
        let input_faces = logic_block.input_faces();
        self.remove_ports(&input_faces, rotation, coords, PortType::Input, structure);
        let output_faces = logic_block.output_faces();
        self.remove_ports(&output_faces, rotation, coords, PortType::Output, structure);
        let ghost without_ports = self@;
        let wire_faces = logic_block.wire_faces();
        let ghost directions = logic_block.spec_directions_with(
            Some(LogicConnection::Wire),
            rotation,
        );
        if wire_faces.len() > 0 {
            // The old group is the one the block stands for, or else found through the
            // block's neighbors.
            let old_group = match self.group_with_wire(coords) {
                Some(group) => Some(group),
                None => self.find_group_all_faces(
                    logic_block,
                    rotation,
                    coords,
                    structure,
                    blocks,
                    logic_blocks,
                ),
            };
            proof {
                assert(spec_group_of_wire(without_ports, world, coords, directions, old_group));
            }
            let signal = match old_group {
                Some(group) => {
                    let signal = self.group_signal(group);
                    self.remove_group(group);
                    proof {
                        assert forall|g: usize| #[trigger] self@.groups.contains_key(g) implies self@.has_port(
                            g,
                        ) || self@.groups[g].recent_wire_coords.is_some() by {
                            if without_ports.has_port(g) {
                                let (p, t) = choose|p: Port, t: PortType| #[trigger]
                                    without_ports.ports_of(g, t).contains(p);
                                assert(self@.ports_of(g, t).contains(p));
                            }
                        }
                    }
                    signal
                },
                None => 0,
            };
            let ghost cleared = self@;
            // New groups for what is left around the block.
            let dimensions = structure.block_dimensions();
            let mut visited = Port::all_for(coords);
            let mut k: usize = 0;
            proof {
                assert(directions.take(0) =~= Seq::<BlockDirection>::empty());
            }
            while k < wire_faces.len()
                invariant
                    k <= wire_faces.len(),
                    wire_faces@.len() <= 6,
                    structure.wf(),
                    self.wf(),
                    world == world_of(structure, blocks, logic_blocks),
                    dimensions == world.dimensions,
                    wire_faces@ == logic_block.spec_faces_with(Some(LogicConnection::Wire)),
                    directions == wire_faces@.map_values(
                        |face: BlockFace| rotation.spec_direction_of(face),
                    ),
                    old(self)@.next_group_id + 6 <= usize::MAX,
                    cleared.next_group_id == old(self)@.next_group_id,
                    cleared.next_group_id <= self@.next_group_id <= cleared.next_group_id + k,
                    (self@, visited@) == cleared.rederived(
                        world,
                        signal,
                        coords,
                        directions.take(k as int),
                    ),
                decreases wire_faces.len() - k,
            {
                let direction = rotation.direction_of(wire_faces[k]);
                let ghost visited_before = visited@;
                match Port::new(coords, direction).facing(dimensions) {
                    Some(start) => {
                        self.rename_group(
                            signal,
                            start.coords,
                            start.direction,
                            structure,
                            &mut visited,
                            blocks,
                            logic_blocks,
                        );
                        proof {
                            assert(visited@ =~= Set::new(
                                |p: Port| spec_marks_after(world, visited_before, start, p),
                            ));
                        }
                    },
                    None => {},
                }
                proof {
                    let longer = directions.take(k + 1);
                    assert(longer.drop_last() =~= directions.take(k as int));
                    assert(longer.last() == direction);
                }
                k += 1;
            }
            proof {
                assert(directions.take(wire_faces@.len() as int) =~= directions);
                assert(spec_wire_removed(without_ports, self@, world, coords, directions));
            }
        }
    }
}

} // verus!
