//! The logic graph of one structure: which ports belong to which group.

use vstd::prelude::*;

use crate::logic::collections::{group_map_entries, GroupMap, PortIndex};
use crate::logic::{Port, PortType};
use crate::structure::coordinates::BlockCoordinate;

verus! {

/// One connected part of the logic network: wires and the ports they join. Every port of a
/// group sees the group's signal.
#[derive(Debug, PartialEq, Eq, Clone)]
pub struct LogicGroup {
    signal: i32,
    recent_wire_coords: Option<BlockCoordinate>,
    output_ports: Vec<Port>,
    input_ports: Vec<Port>,
}

/// What a group is apart from its ports.
pub struct GroupState {
    /// The group's signal; 0 is off.
    pub signal: i32,
    /// A wire block that stands for the group: whoever meets this wire knows the group
    /// without a search.
    pub recent_wire_coords: Option<BlockCoordinate>,
}

impl LogicGroup {
    /// The group's signal.
    pub closed spec fn spec_signal(&self) -> i32 {
        self.signal
    }

    /// The wire block that stands for the group.
    pub closed spec fn spec_recent_wire_coords(&self) -> Option<BlockCoordinate> {
        self.recent_wire_coords
    }

    /// The group's ports of one kind, in the order in which they joined.
    pub closed spec fn spec_ports(&self, port_type: PortType) -> Seq<Port> {
        match port_type {
            PortType::Input => self.input_ports@,
            PortType::Output => self.output_ports@,
        }
    }

    /// What the group is apart from its ports.
    pub open spec fn spec_state(&self) -> GroupState {
        GroupState {
            signal: self.spec_signal(),
            recent_wire_coords: self.spec_recent_wire_coords(),
        }
    }

    /// A group without ports.
    pub fn new(signal: i32, recent_wire_coords: Option<BlockCoordinate>) -> (group: LogicGroup)
        ensures
            group.spec_signal() == signal,
            group.spec_recent_wire_coords() == recent_wire_coords,
            group.spec_ports(PortType::Input).len() == 0,
            group.spec_ports(PortType::Output).len() == 0,
    {
        LogicGroup { signal, recent_wire_coords, output_ports: Vec::new(), input_ports: Vec::new() }
    }

    /// The group's signal.
    pub fn signal(&self) -> (signal: i32)
        ensures
            signal == self.spec_signal(),
    {
        self.signal
    }

    /// Whether the group's signal is on: anything but 0.
    pub fn on(&self) -> (on: bool)
        ensures
            on == (self.spec_signal() != 0),
    {
        self.signal != 0
    }

    /// The wire block that stands for the group.
    pub fn recent_wire_coords(&self) -> (coords: Option<BlockCoordinate>)
        ensures
            coords == self.spec_recent_wire_coords(),
    {
        self.recent_wire_coords
    }

    /// The group's input ports, which read its signal.
    pub fn consumers(&self) -> (ports: &Vec<Port>)
        ensures
            ports@ == self.spec_ports(PortType::Input),
    {
        &self.input_ports
    }

    /// The group's output ports, which write its signal.
    pub fn producers(&self) -> (ports: &Vec<Port>)
        ensures
            ports@ == self.spec_ports(PortType::Output),
    {
        &self.output_ports
    }

    /// The group's ports of one kind.
    pub fn ports(&self, port_type: PortType) -> (ports: &Vec<Port>)
        ensures
            ports@ == self.spec_ports(port_type),
    {
        match port_type {
            PortType::Input => &self.input_ports,
            PortType::Output => &self.output_ports,
        }
    }

    /// Appends `port` to the ports of one kind.
    fn push_port(&mut self, port: Port, port_type: PortType)
        ensures
            final(self).spec_state() == old(self).spec_state(),
            final(self).spec_ports(port_type) == old(self).spec_ports(port_type).push(port),
            forall|other: PortType|
                other != port_type ==> final(self).spec_ports(other) == old(self).spec_ports(other),
    {
        match port_type {
            PortType::Input => self.input_ports.push(port),
            PortType::Output => self.output_ports.push(port),
        }
    }

    /// Takes `port` out of the ports of one kind, where it is among them.
    fn drop_port(&mut self, port: Port, port_type: PortType)
        requires
            old(self).spec_ports(port_type).no_duplicates(),
        ensures
            final(self).spec_state() == old(self).spec_state(),
            final(self).spec_ports(port_type).no_duplicates(),
            forall|p: Port|
                final(self).spec_ports(port_type).contains(p) <==> p != port && old(
                    self,
                ).spec_ports(port_type).contains(p),
            forall|other: PortType|
                other != port_type ==> final(self).spec_ports(other) == old(self).spec_ports(other),
    {
        let ghost before = self.spec_ports(port_type);
        let mut i: usize = 0;
        let n = match port_type {
            PortType::Input => self.input_ports.len(),
            PortType::Output => self.output_ports.len(),
        };
        while i < n
            invariant
                i <= n,
                n == before.len(),
                self.spec_ports(port_type) == before,
                before.no_duplicates(),
                *self == *old(self),
                forall|k: int| 0 <= k < i ==> before[k] != port,
            decreases n - i,
        {
            let current = match port_type {
                PortType::Input => self.input_ports[i],
                PortType::Output => self.output_ports[i],
            };
            if current == port {
                match port_type {
                    PortType::Input => {
                        self.input_ports.remove(i);
                    },
                    PortType::Output => {
                        self.output_ports.remove(i);
                    },
                }
                proof {
                    let after = self.spec_ports(port_type);
                    assert(after == before.remove(i as int));
                    assert(before[i as int] == port);
                    assert forall|p: Port| after.contains(p) <==> p != port && before.contains(
                        p,
                    ) by {
                        if after.contains(p) {
                            let k = choose|k: int| 0 <= k < after.len() && after[k] == p;
                            if k < i {
                                assert(before[k] == p);
                            } else {
                                assert(before[k + 1] == p);
                            }
                        }
                        if p != port && before.contains(p) {
                            let k = choose|k: int| 0 <= k < before.len() && before[k] == p;
                            if k < i {
                                assert(after[k] == p);
                            } else {
                                assert(after[k - 1] == p);
                            }
                        }
                    }
                    assert forall|a: int, b: int|
                        0 <= a < after.len() && 0 <= b < after.len() && a != b implies after[a]
                        != after[b] by {
                        let a0 = if a < i { a } else { a + 1 };
                        let b0 = if b < i { b } else { b + 1 };
                        assert(after[a] == before[a0]);
                        assert(after[b] == before[b0]);
                    }
                }
                return ;
            }
            i += 1;
        }
        proof {
            assert forall|p: Port| before.contains(p) implies p != port by {
                let k = choose|k: int| 0 <= k < before.len() && before[k] == p;
            }
        }
    }
}

/// The logic graph as contracts see it: the groups, and the group of every port.
pub struct LogicGraphView {
    /// The id that the next new group gets. Ids only grow, so none is used twice.
    pub next_group_id: usize,
    /// Every group, by its id.
    pub groups: Map<usize, GroupState>,
    /// The group of every input port.
    pub input_groups: Map<Port, usize>,
    /// The group of every output port.
    pub output_groups: Map<Port, usize>,
}

/// The signal of a group made of several: on if one of them is on.
pub open spec fn spec_merged_signal(groups: Map<usize, GroupState>, ids: Set<usize>) -> i32 {
    if exists|id: usize| ids.contains(id) && groups.contains_key(id) && groups[id].signal != 0 {
        1
    } else {
        0
    }
}

impl LogicGraphView {
    /// The group of every port of one kind.
    pub open spec fn port_groups(self, port_type: PortType) -> Map<Port, usize> {
        match port_type {
            PortType::Input => self.input_groups,
            PortType::Output => self.output_groups,
        }
    }

    /// The group of `port`, if the graph knows the port.
    pub open spec fn group_of(self, port: Port, port_type: PortType) -> Option<usize> {
        if self.port_groups(port_type).contains_key(port) {
            Some(self.port_groups(port_type)[port])
        } else {
            None
        }
    }

    /// The ports of one kind that belong to `group`.
    pub open spec fn ports_of(self, group: usize, port_type: PortType) -> Set<Port> {
        Set::new(
            |p: Port|
                self.port_groups(port_type).contains_key(p) && self.port_groups(port_type)[p]
                    == group,
        )
    }

    /// Whether `group` has a port of any kind.
    pub open spec fn has_port(self, group: usize) -> bool {
        exists|p: Port, t: PortType| #[trigger] self.ports_of(group, t).contains(p)
    }

    /// The group that `coords` stands for, if `group` is one.
    pub open spec fn stands_for(self, coords: BlockCoordinate, group: usize) -> bool {
        self.groups.contains_key(group) && self.groups[group].recent_wire_coords == Some(coords)
    }

    /// Every id in use lies below the next id, and every port belongs to a group that exists.
    pub open spec fn inv(self) -> bool {
        &&& forall|g: usize| #[trigger] self.groups.contains_key(g) ==> g < self.next_group_id
        &&& forall|p: Port| #[trigger]
            self.input_groups.contains_key(p) ==> self.groups.contains_key(self.input_groups[p])
        &&& forall|p: Port| #[trigger]
            self.output_groups.contains_key(p) ==> self.groups.contains_key(self.output_groups[p])
    }

    /// No group is left over: each has a port, or a wire block that stands for it.
    pub open spec fn no_dangling(self) -> bool {
        forall|g: usize| #[trigger]
            self.groups.contains_key(g) ==> self.has_port(g)
                || self.groups[g].recent_wire_coords.is_some()
    }

    /// The graph with one more group, which takes the next id.
    pub open spec fn with_new_group(self, state: GroupState) -> LogicGraphView {
        LogicGraphView {
            next_group_id: (self.next_group_id + 1) as usize,
            groups: self.groups.insert(self.next_group_id, state),
            ..self
        }
    }

    /// The graph with `port` in `group`, wherever the port was before.
    pub open spec fn with_port(self, port: Port, port_type: PortType, group: usize) -> LogicGraphView {
        match port_type {
            PortType::Input => LogicGraphView {
                input_groups: self.input_groups.insert(port, group),
                ..self
            },
            PortType::Output => LogicGraphView {
                output_groups: self.output_groups.insert(port, group),
                ..self
            },
        }
    }

    /// The graph without `port`.
    pub open spec fn without_port(self, port: Port, port_type: PortType) -> LogicGraphView {
        match port_type {
            PortType::Input => LogicGraphView {
                input_groups: self.input_groups.remove(port),
                ..self
            },
            PortType::Output => LogicGraphView {
                output_groups: self.output_groups.remove(port),
                ..self
            },
        }
    }

    /// The graph without `group` and without the ports that belonged to it.
    pub open spec fn without_group(self, group: usize) -> LogicGraphView {
        LogicGraphView {
            next_group_id: self.next_group_id,
            groups: self.groups.remove(group),
            input_groups: self.input_groups.restrict(
                Set::new(|p: Port| self.input_groups[p] != group),
            ),
            output_groups: self.output_groups.restrict(
                Set::new(|p: Port| self.output_groups[p] != group),
            ),
        }
    }

    /// The graph with the state of `group` replaced.
    pub open spec fn with_state(self, group: usize, state: GroupState) -> LogicGraphView {
        LogicGraphView { groups: self.groups.insert(group, state), ..self }
    }

    /// The signal that the input port `port` reads: the signal of its group, or 0 where the
    /// graph does not know the port.
    pub open spec fn port_input(self, port: Port) -> i32 {
        match self.group_of(port, PortType::Input) {
            Some(group) => self.groups[group].signal,
            None => 0,
        }
    }

    /// The graph after the output port `port` has written `signal` to its group. A port that
    /// the graph does not know writes nothing.
    pub open spec fn produced(self, port: Port, signal: i32) -> LogicGraphView {
        match self.group_of(port, PortType::Output) {
            Some(group) => self.with_state(
                group,
                GroupState {
                    signal,
                    recent_wire_coords: self.groups[group].recent_wire_coords,
                },
            ),
            None => self,
        }
    }

    /// The input ports that read something new once the output port `port` has written
    /// `signal`: the input ports of its group if the group had another signal, else none.
    pub open spec fn readers_of_write(self, port: Port, signal: i32) -> Set<Port> {
        match self.group_of(port, PortType::Output) {
            Some(group) => if self.groups[group].signal != signal {
                self.ports_of(group, PortType::Input)
            } else {
                Set::empty()
            },
            None => Set::empty(),
        }
    }

    /// The graph after the groups `ids` have become one new group around the wire block at
    /// `coords`: the new group takes the next id, holds every port of the old ones, is on if
    /// one of them was, and the old ones are gone.
    pub open spec fn merged(self, ids: Set<usize>, coords: BlockCoordinate) -> LogicGraphView {
        let merged_id = self.next_group_id;
        LogicGraphView {
            next_group_id: (self.next_group_id + 1) as usize,
            groups: self.groups.remove_keys(ids).insert(
                merged_id,
                GroupState {
                    signal: spec_merged_signal(self.groups, ids),
                    recent_wire_coords: Some(coords),
                },
            ),
            input_groups: self.input_groups.map_values(
                |g: usize| if ids.contains(g) {
                    merged_id
                } else {
                    g
                },
            ),
            output_groups: self.output_groups.map_values(
                |g: usize| if ids.contains(g) {
                    merged_id
                } else {
                    g
                },
            ),
        }
    }
}

/// The logic graph of one structure. It keeps, in both directions, which port belongs to
/// which group: from a port to its group, and from a group to its input and output ports.
pub struct LogicGraph {
    // As groups are made, this is the next id that is free.
    next_group_id: usize,
    groups: GroupMap,
    output_port_group_id: PortIndex,
    input_port_group_id: PortIndex,
}

impl View for LogicGraph {
    type V = LogicGraphView;

    closed spec fn view(&self) -> LogicGraphView {
        LogicGraphView {
            next_group_id: self.next_group_id,
            groups: Map::new(
                |g: usize| group_map_entries(self.groups).contains_key(g),
                |g: usize| group_map_entries(self.groups)[g].spec_state(),
            ),
            input_groups: self.input_port_group_id@,
            output_groups: self.output_port_group_id@,
        }
    }
}

impl LogicGraph {
    /// The groups with their port lists.
    pub closed spec fn spec_groups(&self) -> Map<usize, LogicGroup> {
        group_map_entries(self.groups)
    }

    /// Whether the port lists of the groups and the index of ports of one kind say the same.
    pub closed spec fn index_consistent(&self, port_type: PortType) -> bool {
        let index = self@.port_groups(port_type);
        let groups = self.spec_groups();
        &&& forall|p: Port| #[trigger]
            index.contains_key(p) ==> groups.contains_key(index[p]) && groups[index[p]].spec_ports(
                port_type,
            ).contains(p)
        &&& forall|g: usize, i: int|
            groups.contains_key(g) && 0 <= i < groups[g].spec_ports(port_type).len()
                ==> index.contains_key(#[trigger] groups[g].spec_ports(port_type)[i])
                && index[groups[g].spec_ports(port_type)[i]] == g
        &&& forall|g: usize|
            groups.contains_key(g) ==> (#[trigger] groups[g].spec_ports(port_type)).no_duplicates()
    }

    /// The graph's invariant on its tables: ids in use lie below the next id, every port's
    /// group exists and lists the port, and every listed port points back to its group.
    pub open spec fn consistent(&self) -> bool {
        &&& self@.inv()
        &&& self.index_consistent(PortType::Input)
        &&& self.index_consistent(PortType::Output)
    }

    /// The graph's full invariant: its tables agree, and no group is left without a port or
    /// a wire.
    pub open spec fn wf(&self) -> bool {
        self.consistent() && self@.no_dangling()
    }

    /// The listed ports of a group are exactly the ports that the index puts in the group.
    pub proof fn lemma_ports_of_group(&self, group: usize, port_type: PortType)
        requires
            self.consistent(),
            self.spec_groups().contains_key(group),
        ensures
            self.spec_groups()[group].spec_ports(port_type).to_set() == self@.ports_of(
                group,
                port_type,
            ),
            self.spec_groups()[group].spec_ports(port_type).no_duplicates(),
            self@.groups.contains_key(group),
            self@.groups[group] == self.spec_groups()[group].spec_state(),
            self@.ports_of(group, port_type).finite(),
    {
        let list = self.spec_groups()[group].spec_ports(port_type);
        vstd::seq_lib::seq_to_set_is_finite(list);
        match port_type {
            PortType::Input => assert(self.index_consistent(PortType::Input)),
            PortType::Output => assert(self.index_consistent(PortType::Output)),
        }
        assert forall|p: Port| list.to_set().contains(p) <==> self@.ports_of(
            group,
            port_type,
        ).contains(p) by {
            if list.to_set().contains(p) {
                let i = choose|i: int| 0 <= i < list.len() && list[i] == p;
                assert(self.spec_groups()[group].spec_ports(port_type)[i] == p);
            }
        }
        assert(list.to_set() =~= self@.ports_of(group, port_type));
    }

    /// The tables of one kind of port still agree where the index is as before, every group
    /// of before is there with the same ports, and every other group has no ports.
    proof fn lemma_lists_kept(&self, before: &LogicGraph, port_type: PortType)
        requires
            before.index_consistent(port_type),
            self@.port_groups(port_type) == before@.port_groups(port_type),
            forall|g: usize| #[trigger]
                before.spec_groups().contains_key(g) ==> self.spec_groups().contains_key(g)
                    && self.spec_groups()[g].spec_ports(port_type)
                    == before.spec_groups()[g].spec_ports(port_type),
            forall|g: usize| #[trigger]
                self.spec_groups().contains_key(g) && !before.spec_groups().contains_key(g)
                    ==> self.spec_groups()[g].spec_ports(port_type).len() == 0,
        ensures
            self.index_consistent(port_type),
    {
        let index = self@.port_groups(port_type);
        let groups = self.spec_groups();
        assert forall|p: Port| #[trigger] index.contains_key(p) implies groups.contains_key(
            index[p],
        ) && groups[index[p]].spec_ports(port_type).contains(p) by {
            assert(before@.port_groups(port_type).contains_key(p));
            assert(before.spec_groups().contains_key(index[p]));
        }
        assert forall|g: usize, i: int|
            groups.contains_key(g) && 0 <= i < groups[g].spec_ports(
                port_type,
            ).len() implies index.contains_key(#[trigger] groups[g].spec_ports(port_type)[i])
            && index[groups[g].spec_ports(port_type)[i]] == g by {
            assert(before.spec_groups().contains_key(g));
            assert(before.spec_groups()[g].spec_ports(port_type)[i] == groups[g].spec_ports(
                port_type,
            )[i]);
        }
        assert forall|g: usize| groups.contains_key(g) implies (#[trigger] groups[g].spec_ports(
            port_type,
        )).no_duplicates() by {
            if before.spec_groups().contains_key(g) {
                assert(before.spec_groups()[g].spec_ports(port_type).no_duplicates());
            }
        }
    }

    /// The groups of the view are the groups that the graph's table holds.
    pub proof fn lemma_view_groups(&self, group: usize)
        ensures
            self@.groups.contains_key(group) <==> self.spec_groups().contains_key(group),
    {
    }

    /// Every group has finitely many ports.
    pub proof fn lemma_ports_finite(&self, group: usize, port_type: PortType)
        requires
            self.consistent(),
        ensures
            self@.ports_of(group, port_type).finite(),
    {
        if self.spec_groups().contains_key(group) {
            self.lemma_ports_of_group(group, port_type);
        } else {
            match port_type {
                PortType::Input => assert(self.index_consistent(PortType::Input)),
                PortType::Output => assert(self.index_consistent(PortType::Output)),
            }
            assert(self@.ports_of(group, port_type) =~= Set::<Port>::empty());
        }
    }

    /// A graph without groups.
    pub fn new() -> (graph: LogicGraph)
        ensures
            graph.wf(),
            graph@.next_group_id == 0,
            graph@.groups.dom() == Set::<usize>::empty(),
            graph@.input_groups.dom() == Set::<Port>::empty(),
            graph@.output_groups.dom() == Set::<Port>::empty(),
    {
        let graph = LogicGraph {
            next_group_id: 0,
            groups: GroupMap::new(),
            output_port_group_id: PortIndex::new(),
            input_port_group_id: PortIndex::new(),
        };
        proof {
            assert(graph@.groups.dom() =~= Set::<usize>::empty());
            assert forall|g: usize| !graph.spec_groups().contains_key(g) by {
                assert(!graph.spec_groups().dom().contains(g));
            }
        }
        graph
    }

    /// The group of `port`, if the graph knows the port.
    pub fn group_of(&self, port: Port, port_type: PortType) -> (group: Option<usize>)
        ensures
            group == self@.group_of(port, port_type),
    {
        match port_type {
            PortType::Input => self.input_port_group_id.get(port),
            PortType::Output => self.output_port_group_id.get(port),
        }
    }

    /// The group with the id `id`.
    pub fn group(&self, id: usize) -> (group: Option<&LogicGroup>)
        ensures
            match group {
                Some(g) => self@.groups.contains_key(id) && self@.groups[id] == g.spec_state()
                    && self.spec_groups().contains_key(id) && self.spec_groups()[id] == *g,
                None => !self@.groups.contains_key(id),
            },
    {
        self.groups.get(id)
    }

    /// The signal of the group with the id `id`; a group that does not exist is off.
    pub fn group_signal(&self, id: usize) -> (signal: i32)
        ensures
            signal == if self@.groups.contains_key(id) {
                self@.groups[id].signal
            } else {
                0
            },
    {
        match self.groups.get(id) {
            Some(group) => group.signal,
            None => 0,
        }
    }

    /// How many groups the graph has.
    pub fn group_count(&self) -> (count: usize)
        ensures
            self@.groups.dom().finite(),
            count == self@.groups.dom().len(),
    {
        let ids = self.groups.ids();
        proof {
            assert(ids@.to_set() =~= self@.groups.dom());
            ids@.unique_seq_to_set();
        }
        ids.len()
    }

    /// The id that the next new group gets.
    pub fn next_group_id(&self) -> (id: usize)
        ensures
            id == self@.next_group_id,
    {
        self.next_group_id
    }

    /// The ids of all groups, each once, in no particular order.
    pub fn group_ids(&self) -> (ids: Vec<usize>)
        ensures
            ids@.no_duplicates(),
            forall|id: usize| ids@.contains(id) <==> self@.groups.contains_key(id),
    {
        self.groups.ids()
    }

    /// A group that the wire block at `coords` stands for, if there is one.
    pub fn group_with_wire(&self, coords: BlockCoordinate) -> (group: Option<usize>)
        ensures
            match group {
                Some(g) => self@.stands_for(coords, g),
                None => forall|g: usize| !self@.stands_for(coords, g),
            },
    {
        let ids = self.groups.ids();
        let mut i: usize = 0;
        while i < ids.len()
            invariant
                i <= ids.len(),
                forall|id: usize| ids@.contains(id) <==> self.spec_groups().contains_key(id),
                forall|k: int| 0 <= k < i ==> !self@.stands_for(coords, #[trigger] ids@[k]),
            decreases ids.len() - i,
        {
            let id = ids[i];
            assert(ids@.contains(id));
            match self.groups.get(id) {
                Some(group) => {
                    match group.recent_wire_coords {
                        Some(wire) => {
                            if wire == coords {
                                return Some(id);
                            }
                        },
                        None => {},
                    }
                },
                None => {},
            }
            i += 1;
        }
        proof {
            assert forall|g: usize| !self@.stands_for(coords, g) by {
                if self@.groups.contains_key(g) {
                    assert(ids@.contains(g));
                    let k = choose|k: int| 0 <= k < ids@.len() && ids@[k] == g;
                    assert(!self@.stands_for(coords, ids@[k]));
                }
            }
        }
        None
    }

    /// Takes the next free id.
    fn new_group_id(&mut self) -> (id: usize)
        requires
            old(self).next_group_id < usize::MAX,
        ensures
            id == old(self).next_group_id,
            final(self).next_group_id == id + 1,
            final(self).groups == old(self).groups,
            final(self).input_port_group_id == old(self).input_port_group_id,
            final(self).output_port_group_id == old(self).output_port_group_id,
    {
        self.next_group_id += 1;
        self.next_group_id - 1
    }

    /// Makes a group without ports and returns its id.
    pub(crate) fn new_group(&mut self, signal: i32, coords: Option<BlockCoordinate>) -> (id: usize)
        requires
            old(self).consistent(),
            old(self)@.next_group_id < usize::MAX,
        ensures
            final(self).consistent(),
            id == old(self)@.next_group_id,
            final(self)@ == old(self)@.with_new_group(
                GroupState { signal, recent_wire_coords: coords },
            ),
    {
        let id = self.new_group_id();
        assert(!old(self).spec_groups().contains_key(id)) by {
            if old(self).spec_groups().contains_key(id) {
                assert(old(self)@.groups.contains_key(id));
            }
        }
        let fresh = LogicGroup::new(signal, coords);
        self.groups.insert(id, fresh);
        proof {
            assert(self@.groups =~= old(self)@.groups.insert(
                id,
                GroupState { signal, recent_wire_coords: coords },
            ));
            self.lemma_lists_kept(old(self), PortType::Input);
            self.lemma_lists_kept(old(self), PortType::Output);
            assert(self@ == old(self)@.with_new_group(
                GroupState { signal, recent_wire_coords: coords },
            ));
            assert(self@.inv());
        }
        id
    }

    /// Replaces the signal and the wire of a group and keeps its ports.
    pub(crate) fn set_group_state(
        &mut self,
        id: usize,
        signal: i32,
        coords: Option<BlockCoordinate>,
    )
        requires
            old(self).consistent(),
            old(self)@.groups.contains_key(id),
        ensures
            final(self).consistent(),
            final(self)@ == old(self)@.with_state(
                id,
                GroupState { signal, recent_wire_coords: coords },
            ),
            final(self)@.port_groups(PortType::Input) == old(self)@.port_groups(PortType::Input),
            final(self)@.port_groups(PortType::Output) == old(self)@.port_groups(PortType::Output),
    {
        let found = self.groups.remove(id);
        let mut group = found.unwrap();
        let ghost before = group;
        group.signal = signal;
        group.recent_wire_coords = coords;
        self.groups.insert(id, group);
        proof {
            assert(self@.groups =~= old(self)@.groups.insert(
                id,
                GroupState { signal, recent_wire_coords: coords },
            ));
            assert(forall|t: PortType| group.spec_ports(t) == before.spec_ports(t));
            self.lemma_lists_kept(old(self), PortType::Input);
            self.lemma_lists_kept(old(self), PortType::Output);
            assert(self@ == old(self)@.with_state(
                id,
                GroupState { signal, recent_wire_coords: coords },
            ));
            assert(self@.inv());
        }
    }

    /// Takes `port` out of the graph: out of the index and out of its group's list. The
    /// group stays, with or without other ports. Returns the group.
    pub(crate) fn detach_port(&mut self, port: Port, port_type: PortType) -> (group: Option<usize>)
        requires
            old(self).consistent(),
        ensures
            final(self).consistent(),
            group == old(self)@.group_of(port, port_type),
            final(self)@ == old(self)@.without_port(port, port_type),
    {
        let found = match port_type {
            PortType::Input => self.input_port_group_id.remove(port),
            PortType::Output => self.output_port_group_id.remove(port),
        };
        let ghost other = match port_type {
            PortType::Input => PortType::Output,
            PortType::Output => PortType::Input,
        };
        proof {
            assert(old(self).index_consistent(port_type));
            assert(old(self).index_consistent(other));
        }
        match found {
            None => {
                proof {
                    assert(self@.port_groups(port_type) =~= old(self)@.port_groups(port_type));
                    assert(self@ == old(self)@.without_port(port, port_type));
                    self.lemma_lists_kept(old(self), PortType::Input);
                    self.lemma_lists_kept(old(self), PortType::Output);
                }
                None
            },
            Some(id) => {
                assert(old(self)@.port_groups(port_type).contains_key(port));
                assert(old(self).spec_groups().contains_key(id));
                let taken = self.groups.remove(id);
                let mut group = taken.unwrap();
                let ghost before = group;
                group.drop_port(port, port_type);
                self.groups.insert(id, group);
                proof {
                    assert(self@.groups =~= old(self)@.groups);
                    assert(self@ == old(self)@.without_port(port, port_type));
                    assert(self@.inv());
                    assert(group.spec_ports(other) == before.spec_ports(other));
                    self.lemma_lists_kept(old(self), other);
                    let index = self@.port_groups(port_type);
                    let groups = self.spec_groups();
                    assert forall|p: Port| #[trigger] index.contains_key(p) implies groups.contains_key(
                        index[p],
                    ) && groups[index[p]].spec_ports(port_type).contains(p) by {
                        assert(old(self)@.port_groups(port_type).contains_key(p));
                        assert(p != port);
                    }
                    assert forall|g: usize, i: int|
                        groups.contains_key(g) && 0 <= i < groups[g].spec_ports(
                            port_type,
                        ).len() implies index.contains_key(
                        #[trigger] groups[g].spec_ports(port_type)[i],
                    ) && index[groups[g].spec_ports(port_type)[i]] == g by {
                        let p = groups[g].spec_ports(port_type)[i];
                        if g == id {
                            assert(group.spec_ports(port_type).contains(p));
                            assert(before.spec_ports(port_type).contains(p));
                            let k = choose|k: int|
                                0 <= k < before.spec_ports(port_type).len() && before.spec_ports(
                                    port_type,
                                )[k] == p;
                            assert(old(self).spec_groups()[g].spec_ports(port_type)[k] == p);
                        } else {
                            assert(old(self).spec_groups()[g].spec_ports(port_type)[i] == p);
                            assert(old(self)@.port_groups(port_type)[p] == g);
                        }
                    }
                    assert forall|g: usize| groups.contains_key(g) implies (
                    #[trigger] groups[g].spec_ports(port_type)).no_duplicates() by {
                        if g != id {
                            assert(old(self).spec_groups()[g].spec_ports(port_type).no_duplicates());
                        }
                    }
                }
                Some(id)
            },
        }
    }

    /// Puts `port` into the group `group_id`, and takes it out of the group it was in.
    pub(crate) fn add_port(&mut self, port: Port, group_id: usize, port_type: PortType)
        requires
            old(self).consistent(),
            old(self)@.groups.contains_key(group_id),
        ensures
            final(self).consistent(),
            final(self)@ == old(self)@.with_port(port, port_type, group_id),
    {
        self.detach_port(port, port_type);
        let ghost mid = *self;
        let ghost other = match port_type {
            PortType::Input => PortType::Output,
            PortType::Output => PortType::Input,
        };
        match port_type {
            PortType::Input => self.input_port_group_id.insert(port, group_id),
            PortType::Output => self.output_port_group_id.insert(port, group_id),
        }
        proof {
            assert(mid.index_consistent(port_type));
            assert(mid.index_consistent(other));
            assert(mid@.groups.contains_key(group_id));
            assert(mid.spec_groups().contains_key(group_id));
        }
        let taken = self.groups.remove(group_id);
        let mut group = taken.unwrap();
        let ghost before = group;
        group.push_port(port, port_type);
        self.groups.insert(group_id, group);
        proof {
            assert(self@.groups =~= old(self)@.groups);
            assert(self@.port_groups(port_type) =~= old(self)@.port_groups(port_type).insert(
                port,
                group_id,
            ));
            assert(self@ == old(self)@.with_port(port, port_type, group_id));
            assert(self@.inv());
            assert(group.spec_ports(other) == before.spec_ports(other));
            self.lemma_lists_kept(&mid, other);
            let index = self@.port_groups(port_type);
            let groups = self.spec_groups();
            let list = group.spec_ports(port_type);
            assert(list == before.spec_ports(port_type).push(port));
            assert(!before.spec_ports(port_type).contains(port)) by {
                if before.spec_ports(port_type).contains(port) {
                    let k = choose|k: int|
                        0 <= k < before.spec_ports(port_type).len() && before.spec_ports(
                            port_type,
                        )[k] == port;
                    assert(mid.spec_groups()[group_id].spec_ports(port_type)[k] == port);
                    assert(mid@.port_groups(port_type).contains_key(port));
                }
            }
            assert forall|p: Port| #[trigger] index.contains_key(p) implies groups.contains_key(
                index[p],
            ) && groups[index[p]].spec_ports(port_type).contains(p) by {
                if p == port {
                    assert(list[list.len() - 1] == port);
                } else {
                    assert(mid@.port_groups(port_type).contains_key(p));
                    let g = mid@.port_groups(port_type)[p];
                    if g == group_id {
                        let k = choose|k: int|
                            0 <= k < before.spec_ports(port_type).len() && before.spec_ports(
                                port_type,
                            )[k] == p;
                        assert(list[k] == p);
                    }
                }
            }
            assert forall|g: usize, i: int|
                groups.contains_key(g) && 0 <= i < groups[g].spec_ports(
                    port_type,
                ).len() implies index.contains_key(#[trigger] groups[g].spec_ports(port_type)[i])
                && index[groups[g].spec_ports(port_type)[i]] == g by {
                let p = groups[g].spec_ports(port_type)[i];
                if g == group_id {
                    if i < before.spec_ports(port_type).len() {
                        assert(mid.spec_groups()[g].spec_ports(port_type)[i] == p);
                    }
                } else {
                    assert(mid.spec_groups()[g].spec_ports(port_type)[i] == p);
                    assert(mid@.port_groups(port_type)[p] == g);
                }
            }
            assert forall|g: usize| groups.contains_key(g) implies (#[trigger] groups[g].spec_ports(
                port_type,
            )).no_duplicates() by {
                if g != group_id {
                    assert(mid.spec_groups()[g].spec_ports(port_type).no_duplicates());
                } else {
                    assert(mid.spec_groups()[g].spec_ports(port_type).no_duplicates());
                    assert forall|a: int, b: int|
                        0 <= a < list.len() && 0 <= b < list.len() && a != b implies list[a]
                        != list[b] by {
                        if a < list.len() - 1 {
                            assert(before.spec_ports(port_type)[a] == list[a]);
                        }
                        if b < list.len() - 1 {
                            assert(before.spec_ports(port_type)[b] == list[b]);
                        }
                    }
                }
            }
        }
    }

    /// Forgets every port of `ports`, all of which belonged to the group that was just taken
    /// out of the group table.
    fn forget_ports(&mut self, ports: &Vec<Port>, port_type: PortType)
        ensures
            final(self).next_group_id == old(self).next_group_id,
            final(self).groups == old(self).groups,
            final(self)@.port_groups(port_type) == old(self)@.port_groups(port_type).remove_keys(
                ports@.to_set(),
            ),
            forall|other: PortType|
                other != port_type ==> final(self)@.port_groups(other) == old(self)@.port_groups(
                    other,
                ),
    {
        let mut i: usize = 0;
        while i < ports.len()
            invariant
                i <= ports.len(),
                self.next_group_id == old(self).next_group_id,
                self.groups == old(self).groups,
                self@.port_groups(port_type) == old(self)@.port_groups(port_type).remove_keys(
                    ports@.take(i as int).to_set(),
                ),
                forall|other: PortType|
                    other != port_type ==> self@.port_groups(other) == old(self)@.port_groups(other),
            decreases ports.len() - i,
        {
            match port_type {
                PortType::Input => {
                    self.input_port_group_id.remove(ports[i]);
                },
                PortType::Output => {
                    self.output_port_group_id.remove(ports[i]);
                },
            }
            proof {
                let shorter = ports@.take(i as int);
                let longer = ports@.take(i + 1);
                let done = shorter.to_set();
                let next = longer.to_set();
                assert(longer == shorter.push(ports@[i as int]));
                assert forall|p: Port| next.contains(p) <==> done.contains(p) || p == ports@[i as int] by {
                    if next.contains(p) {
                        let k = choose|k: int| 0 <= k < longer.len() && longer[k] == p;
                        if k < i {
                            assert(shorter[k] == p);
                        }
                    }
                    if done.contains(p) {
                        let k = choose|k: int| 0 <= k < shorter.len() && shorter[k] == p;
                        assert(longer[k] == p);
                    }
                    if p == ports@[i as int] {
                        assert(longer[i as int] == p);
                    }
                }
                assert(self@.port_groups(port_type) =~= old(self)@.port_groups(
                    port_type,
                ).remove_keys(next));
            }
            i += 1;
        }
        proof {
            assert(ports@.take(ports@.len() as int) == ports@);
            assert(ports@.take(0).to_set() =~= Set::<Port>::empty());
        }
    }

    /// Takes the group `id` out of the graph together with its ports, and returns it with
    /// the lists of the ports it had.
    pub(crate) fn remove_group(&mut self, id: usize) -> (group: Option<LogicGroup>)
        requires
            old(self).consistent(),
        ensures
            final(self).consistent(),
            final(self)@ == old(self)@.without_group(id),
            match group {
                Some(g) => {
                    &&& old(self)@.groups.contains_key(id)
                    &&& old(self)@.groups[id] == g.spec_state()
                    &&& forall|t: PortType| #[trigger]
                        g.spec_ports(t).to_set() == old(self)@.ports_of(id, t)
                },
                None => !old(self)@.groups.contains_key(id),
            },
    {
        let taken = self.groups.remove(id);
        match taken {
            None => {
                proof {
                    assert(self.spec_groups() =~= old(self).spec_groups());
                    assert(old(self).index_consistent(PortType::Input));
                    assert(old(self).index_consistent(PortType::Output));
                    assert(!old(self)@.groups.contains_key(id));
                    assert(self@.groups =~= old(self)@.groups.remove(id));
                    assert(self@.input_groups =~= old(self)@.without_group(id).input_groups);
                    assert(self@.output_groups =~= old(self)@.without_group(id).output_groups);
                    assert(self@ == old(self)@.without_group(id));
                    self.lemma_lists_kept(old(self), PortType::Input);
                    self.lemma_lists_kept(old(self), PortType::Output);
                }
                None
            },
            Some(group) => {
                proof {
                    old(self).lemma_ports_of_group(id, PortType::Input);
                    old(self).lemma_ports_of_group(id, PortType::Output);
                }
                self.forget_ports(&group.input_ports, PortType::Input);
                self.forget_ports(&group.output_ports, PortType::Output);
                proof {
                    assert(old(self).index_consistent(PortType::Input));
                    assert(old(self).index_consistent(PortType::Output));
                    assert(self@.groups =~= old(self)@.groups.remove(id));
                    assert(self@.input_groups =~= old(self)@.without_group(id).input_groups);
                    assert(self@.output_groups =~= old(self)@.without_group(id).output_groups);
                    assert(self@ == old(self)@.without_group(id));
                    self.lemma_group_gone(old(self), id, PortType::Input);
                    self.lemma_group_gone(old(self), id, PortType::Output);
                    assert(self@.inv());
                    assert forall|t: PortType| #[trigger]
                        group.spec_ports(t).to_set() == old(self)@.ports_of(id, t) by {
                        match t {
                            PortType::Input => {},
                            PortType::Output => {},
                        }
                    }
                }
                Some(group)
            },
        }
    }

    /// The tables of one kind of port still agree after a group has left with its ports.
    proof fn lemma_group_gone(&self, before: &LogicGraph, id: usize, port_type: PortType)
        requires
            before.index_consistent(port_type),
            self.spec_groups() == before.spec_groups().remove(id),
            self@.port_groups(port_type) == before@.without_group(id).port_groups(port_type),
        ensures
            self.index_consistent(port_type),
            forall|p: Port| #[trigger]
                self@.port_groups(port_type).contains_key(p) ==> self.spec_groups().contains_key(
                    self@.port_groups(port_type)[p],
                ),
    {
        let index = self@.port_groups(port_type);
        let groups = self.spec_groups();
        let old_index = before@.port_groups(port_type);
        assert forall|p: Port| #[trigger] index.contains_key(p) implies groups.contains_key(
            index[p],
        ) && groups[index[p]].spec_ports(port_type).contains(p) by {
            assert(old_index.contains_key(p));
        }
        assert forall|g: usize, i: int|
            groups.contains_key(g) && 0 <= i < groups[g].spec_ports(
                port_type,
            ).len() implies index.contains_key(#[trigger] groups[g].spec_ports(port_type)[i])
            && index[groups[g].spec_ports(port_type)[i]] == g by {
            let p = groups[g].spec_ports(port_type)[i];
            assert(before.spec_groups()[g].spec_ports(port_type)[i] == p);
            assert(old_index[p] == g);
        }
        assert forall|g: usize| groups.contains_key(g) implies (#[trigger] groups[g].spec_ports(
            port_type,
        )).no_duplicates() by {
            assert(before.spec_groups()[g].spec_ports(port_type).no_duplicates());
        }
    }

    /// Puts every port of `ports` into the group `target`.
    fn move_ports(&mut self, ports: &Vec<Port>, port_type: PortType, target: usize)
        requires
            old(self).consistent(),
            old(self)@.groups.contains_key(target),
        ensures
            final(self).consistent(),
            final(self)@.next_group_id == old(self)@.next_group_id,
            final(self)@.groups == old(self)@.groups,
            final(self)@.port_groups(port_type) == old(self)@.port_groups(
                port_type,
            ).union_prefer_right(Map::new(|p: Port| ports@.contains(p), |p: Port| target)),
            forall|other: PortType|
                other != port_type ==> final(self)@.port_groups(other) == old(self)@.port_groups(
                    other,
                ),
    {
        let mut k: usize = 0;
        while k < ports.len()
            invariant
                k <= ports.len(),
                self.consistent(),
                self@.next_group_id == old(self)@.next_group_id,
                self@.groups == old(self)@.groups,
                old(self)@.groups.contains_key(target),
                self@.port_groups(port_type) == old(self)@.port_groups(
                    port_type,
                ).union_prefer_right(
                    Map::new(|p: Port| ports@.take(k as int).contains(p), |p: Port| target),
                ),
                forall|other: PortType|
                    other != port_type ==> self@.port_groups(other) == old(self)@.port_groups(other),
            decreases ports.len() - k,
        {
            let ghost before = self@;
            self.add_port(ports[k], target, port_type);
            proof {
                lemma_take_to_set(ports@, k as int);
                let shorter = ports@.take(k as int);
                let longer = ports@.take(k + 1);
                assert forall|p: Port| longer.contains(p) <==> shorter.contains(p) || p
                    == ports@[k as int] by {
                    assert(longer.to_set().contains(p) <==> longer.contains(p));
                    assert(shorter.to_set().contains(p) <==> shorter.contains(p));
                }
                assert(self@.port_groups(port_type) =~= old(self)@.port_groups(
                    port_type,
                ).union_prefer_right(Map::new(|p: Port| longer.contains(p), |p: Port| target)));
                assert forall|other: PortType| other != port_type implies self@.port_groups(other)
                    == old(self)@.port_groups(other) by {
                    assert(before.port_groups(other) == old(self)@.port_groups(other));
                }
            }
            k += 1;
        }
        proof {
            assert(ports@.take(ports@.len() as int) == ports@);
        }
    }

    /// Makes one new group around the wire block at `coords` out of the groups `group_ids`.
    /// Every port of the old groups moves to the new one, the new one is on if one of the old
    /// ones was, and the old ones are removed. Returns the id of the new group.
    pub(crate) fn merge_adjacent_groups(&mut self, group_ids: &Vec<usize>, coords: BlockCoordinate) -> (merged:
        usize)
        requires
            old(self).consistent(),
            old(self)@.next_group_id < usize::MAX,
        ensures
            final(self).consistent(),
            merged == old(self)@.next_group_id,
            final(self)@ == old(self)@.merged(group_ids@.to_set(), coords),
    {
        let new_id = self.new_group(0, Some(coords));
        let ghost start = old(self)@;
        let ghost placeholder = GroupState { signal: 0, recent_wire_coords: Some(coords) };
        let mut on = false;
        let mut i: usize = 0;
        proof {
            assert(group_ids@.take(0).to_set() =~= Set::<usize>::empty());
            assert(self@.groups =~= start.groups.remove_keys(Set::<usize>::empty()).insert(
                new_id,
                placeholder,
            ));
            assert(self@.input_groups =~= start.merged(Set::<usize>::empty(), coords).input_groups);
            assert(self@.output_groups =~= start.merged(
                Set::<usize>::empty(),
                coords,
            ).output_groups);
        }
        while i < group_ids.len()
            invariant
                i <= group_ids.len(),
                self.consistent(),
                start.inv(),
                new_id == start.next_group_id,
                start.next_group_id < usize::MAX,
                placeholder == (GroupState { signal: 0, recent_wire_coords: Some(coords) }),
                self@.next_group_id == start.next_group_id + 1,
                self@.groups == start.groups.remove_keys(
                    group_ids@.take(i as int).to_set(),
                ).insert(new_id, placeholder),
                self@.input_groups == start.merged(
                    group_ids@.take(i as int).to_set(),
                    coords,
                ).input_groups,
                self@.output_groups == start.merged(
                    group_ids@.take(i as int).to_set(),
                    coords,
                ).output_groups,
                on <==> spec_merged_signal(start.groups, group_ids@.take(i as int).to_set()) == 1,
            decreases group_ids.len() - i,
        {
            let id = group_ids[i];
            let ghost done = group_ids@.take(i as int).to_set();
            let ghost next = group_ids@.take(i + 1).to_set();
            let ghost before = self@;
            proof {
                lemma_take_to_set(group_ids@, i as int);
                assert(next == done.insert(id));
            }
            if id != new_id {
                match self.remove_group(id) {
                    Some(group) => {
                        let ghost removed = self@;
                        if group.signal != 0 {
                            on = true;
                        }
                        self.move_ports(&group.output_ports, PortType::Output, new_id);
                        self.move_ports(&group.input_ports, PortType::Input, new_id);
                        proof {
                            assert(group.spec_ports(PortType::Input).to_set() == before.ports_of(
                                id,
                                PortType::Input,
                            ));
                            assert(group.spec_ports(PortType::Output).to_set() == before.ports_of(
                                id,
                                PortType::Output,
                            ));
                            assert(!done.contains(id));
                            assert(start.groups.contains_key(id));
                            assert(self@.groups =~= start.groups.remove_keys(next).insert(
                                new_id,
                                placeholder,
                            ));
                            assert(self@.input_groups =~= start.merged(next, coords).input_groups) by {
                                assert forall|p: Port| start.input_groups.contains_key(p) implies (
                                #[trigger] self@.input_groups.contains_key(p))
                                    && self@.input_groups[p] == start.merged(
                                    next,
                                    coords,
                                ).input_groups[p] by {
                                    assert(before.input_groups.contains_key(p));
                                    if before.input_groups[p] == id {
                                        assert(before.ports_of(id, PortType::Input).contains(p));
                                        assert(group.input_ports@.to_set().contains(p));
                                        assert(group.input_ports@.contains(p));
                                    } else {
                                        assert(removed.input_groups.contains_key(p));
                                        if group.input_ports@.contains(p) {
                                            assert(group.input_ports@.to_set().contains(p));
                                            assert(before.ports_of(id, PortType::Input).contains(p));
                                        }
                                    }
                                }
                                assert forall|p: Port| #[trigger]
                                    self@.input_groups.contains_key(p) implies start.input_groups.contains_key(
                                    p,
                                ) by {
                                    if group.input_ports@.contains(p) {
                                        assert(group.input_ports@.to_set().contains(p));
                                        assert(before.ports_of(id, PortType::Input).contains(p));
                                    }
                                }
                            }
                            assert(self@.output_groups =~= start.merged(next, coords).output_groups) by {
                                assert forall|p: Port| start.output_groups.contains_key(p) implies (
                                #[trigger] self@.output_groups.contains_key(p))
                                    && self@.output_groups[p] == start.merged(
                                    next,
                                    coords,
                                ).output_groups[p] by {
                                    assert(before.output_groups.contains_key(p));
                                    if before.output_groups[p] == id {
                                        assert(before.ports_of(id, PortType::Output).contains(p));
                                        assert(group.output_ports@.to_set().contains(p));
                                        assert(group.output_ports@.contains(p));
                                    } else {
                                        assert(removed.output_groups.contains_key(p));
                                        if group.output_ports@.contains(p) {
                                            assert(group.output_ports@.to_set().contains(p));
                                            assert(before.ports_of(id, PortType::Output).contains(p));
                                        }
                                    }
                                }
                                assert forall|p: Port| #[trigger]
                                    self@.output_groups.contains_key(
                                        p,
                                    ) implies start.output_groups.contains_key(p) by {
                                    if group.output_ports@.contains(p) {
                                        assert(group.output_ports@.to_set().contains(p));
                                        assert(before.ports_of(id, PortType::Output).contains(p));
                                    }
                                }
                            }
                            assert(start.groups[id] == group.spec_state());
                        }
                    },
                    None => {
                        proof {
                            assert(!before.groups.contains_key(id));
                            assert(done.contains(id) || !start.groups.contains_key(id));
                            assert(self@.groups =~= start.groups.remove_keys(next).insert(
                                new_id,
                                placeholder,
                            ));
                            assert forall|p: Port| #[trigger]
                                start.input_groups.contains_key(p) implies (done.contains(
                                start.input_groups[p],
                            ) <==> next.contains(start.input_groups[p])) by {
                                assert(start.groups.contains_key(start.input_groups[p]));
                            }
                            assert forall|p: Port| #[trigger]
                                start.output_groups.contains_key(p) implies (done.contains(
                                start.output_groups[p],
                            ) <==> next.contains(start.output_groups[p])) by {
                                assert(start.groups.contains_key(start.output_groups[p]));
                            }
                            assert(self@.input_groups =~= start.merged(next, coords).input_groups);
                            assert(self@.output_groups =~= start.merged(
                                next,
                                coords,
                            ).output_groups);
                        }
                    },
                }
            } else {
                proof {
                    assert(!start.groups.contains_key(id));
                    assert(self@.groups =~= start.groups.remove_keys(next).insert(
                        new_id,
                        placeholder,
                    ));
                    assert forall|p: Port| #[trigger]
                        start.input_groups.contains_key(p) implies start.input_groups[p] != id by {
                        assert(start.groups.contains_key(start.input_groups[p]));
                    }
                    assert forall|p: Port| #[trigger]
                        start.output_groups.contains_key(p) implies start.output_groups[p] != id by {
                        assert(start.groups.contains_key(start.output_groups[p]));
                    }
                    assert(self@.input_groups =~= start.merged(next, coords).input_groups);
                    assert(self@.output_groups =~= start.merged(next, coords).output_groups);
                }
            }
            proof {
                lemma_merged_signal_insert(start.groups, done, id);
            }
            i += 1;
        }
        let signal: i32 = if on {
            1
        } else {
            0
        };
        self.set_group_state(new_id, signal, Some(coords));
        proof {
            assert(group_ids@.take(group_ids@.len() as int) == group_ids@);
            let all = group_ids@.to_set();
            assert(self@.groups =~= start.merged(all, coords).groups);
            assert(self@ == start.merged(all, coords));
        }
        new_id
    }

    /// The ports of one kind that belong to the group `id`, in the order in which they
    /// joined it. A group that does not exist has none.
    pub fn ports_of_group(&self, id: usize, port_type: PortType) -> (ports: Vec<Port>)
        requires
            self.consistent(),
        ensures
            ports@.no_duplicates(),
            ports@.to_set() == self@.ports_of(id, port_type),
    {
        let mut ports: Vec<Port> = Vec::new();
        match self.groups.get(id) {
            None => {
                proof {
                    match port_type {
                        PortType::Input => assert(self.index_consistent(PortType::Input)),
                        PortType::Output => assert(self.index_consistent(PortType::Output)),
                    }
                    assert(self@.ports_of(id, port_type) =~= Set::<Port>::empty());
                    assert(ports@.to_set() =~= Set::<Port>::empty());
                }
            },
            Some(group) => {
                proof {
                    self.lemma_ports_of_group(id, port_type);
                }
                let listed = group.ports(port_type);
                let mut i: usize = 0;
                while i < listed.len()
                    invariant
                        i <= listed.len(),
                        ports@ == listed@.take(i as int),
                    decreases listed.len() - i,
                {
                    ports.push(listed[i]);
                    proof {
                        assert(ports@ =~= listed@.take(i + 1));
                    }
                    i += 1;
                }
                proof {
                    assert(listed@.take(listed@.len() as int) == listed@);
                }
            },
        }
        ports
    }

    /// Writes `signal` from the output port `port` to its group, in place of the signal the
    /// group had. Returns the input ports of the group if that changed its signal: they are
    /// the ports that read something new from now on.
    pub fn update_producer(&mut self, port: Port, signal: i32) -> (consumers: Vec<Port>)
        requires
            old(self).wf(),
        ensures
            final(self).wf(),
            final(self)@ == old(self)@.produced(port, signal),
            consumers@.no_duplicates(),
            consumers@.to_set() == old(self)@.readers_of_write(port, signal),
    {
        match self.group_of(port, PortType::Output) {
            None => {
                let consumers: Vec<Port> = Vec::new();
                proof {
                    assert(consumers@.to_set() =~= Set::<Port>::empty());
                }
                consumers
            },
            Some(id) => {
                proof {
                    assert(old(self)@.output_groups.contains_key(port));
                    assert(old(self)@.groups.contains_key(id));
                }
                let previous = self.group_signal(id);
                let wire = match self.groups.get(id) {
                    Some(group) => group.recent_wire_coords,
                    None => None,
                };
                self.set_group_state(id, signal, wire);
                proof {
                    assert forall|g: usize| #[trigger] self@.groups.contains_key(g) implies self@.has_port(
                        g,
                    ) || self@.groups[g].recent_wire_coords.is_some() by {
                        assert(old(self)@.groups.contains_key(g));
                        if old(self)@.has_port(g) {
                            let (p, t) = choose|p: Port, t: PortType| #[trigger]
                                old(self)@.ports_of(g, t).contains(p);
                            assert(self@.port_groups(t) == old(self)@.port_groups(t));
                            assert(self@.ports_of(g, t).contains(p));
                        }
                    }
                    assert(self@.ports_of(id, PortType::Input) =~= old(self)@.ports_of(
                        id,
                        PortType::Input,
                    ));
                }
                if previous != signal {
                    self.ports_of_group(id, PortType::Input)
                } else {
                    let consumers: Vec<Port> = Vec::new();
                    proof {
                        assert(consumers@.to_set() =~= Set::<Port>::empty());
                    }
                    consumers
                }
            },
        }
    }

    /// The signal that the input port `port` reads: the signal of its group, or 0 where the
    /// graph does not know the port.
    pub fn port_input(&self, port: Port) -> (signal: i32)
        requires
            self.consistent(),
        ensures
            signal == self@.port_input(port),
    {
        match self.group_of(port, PortType::Input) {
            Some(group) => {
                proof {
                    assert(self@.input_groups.contains_key(port));
                }
                self.group_signal(group)
            },
            None => 0,
        }
    }
}

/// The first `i + 1` items of a sequence, as a set, are its first `i` items and the next one.
pub proof fn lemma_take_to_set<T>(s: Seq<T>, i: int)
    requires
        0 <= i < s.len(),
    ensures
        s.take(i + 1).to_set() == s.take(i).to_set().insert(s[i]),
{
    let shorter = s.take(i);
    let longer = s.take(i + 1);
    assert(longer == shorter.push(s[i]));
    assert forall|x: T| longer.to_set().contains(x) <==> shorter.to_set().insert(s[i]).contains(
        x,
    ) by {
        if longer.to_set().contains(x) {
            let k = choose|k: int| 0 <= k < longer.len() && longer[k] == x;
            if k < i {
                assert(shorter[k] == x);
            }
        }
        if shorter.to_set().contains(x) {
            let k = choose|k: int| 0 <= k < shorter.len() && shorter[k] == x;
            assert(longer[k] == x);
        }
        if x == s[i] {
            assert(longer[i] == x);
        }
    }
    assert(longer.to_set() =~= shorter.to_set().insert(s[i]));
}

/// The signal of a merge with one more group: on if the merge was on or the new group is.
pub proof fn lemma_merged_signal_insert(groups: Map<usize, GroupState>, ids: Set<usize>, id: usize)
    ensures
        spec_merged_signal(groups, ids.insert(id)) == 1 <==> spec_merged_signal(groups, ids) == 1
            || (groups.contains_key(id) && groups[id].signal != 0),
{
    if spec_merged_signal(groups, ids) == 1 {
        let w = choose|w: usize| ids.contains(w) && groups.contains_key(w) && groups[w].signal != 0;
        assert(ids.insert(id).contains(w));
    }
    if groups.contains_key(id) && groups[id].signal != 0 {
        assert(ids.insert(id).contains(id));
    }
}

} // verus!
