//! The hash tables of the logic graph.
//!
//! The tables themselves are `bevy::utils::HashMap` and `bevy::utils::HashSet`, which are the
//! tables of `hashbrown` with the hasher that bevy chooses. Their keys are integers and
//! tuples of integers. What a table holds is named by a spec function; the functions that
//! touch a table state their effect on that name, and Verus takes their word for it.

use bevy::utils::{HashMap, HashSet};
use vstd::prelude::*;

use crate::logic::logic_graph::LogicGroup;
use crate::logic::{Port, PortKey};

verus! {

/// A hash table from port keys to group ids.
#[verifier::external_body]
pub struct PortKeyMap {
    map: HashMap<PortKey, usize>,
}

/// What a [`PortKeyMap`] holds.
pub uninterp spec fn port_key_map_entries(table: PortKeyMap) -> Map<PortKey, usize>;

/// A hash set of port keys.
#[verifier::external_body]
pub struct PortKeySet {
    set: HashSet<PortKey>,
}

/// What a [`PortKeySet`] holds.
pub uninterp spec fn port_key_set_members(table: PortKeySet) -> Set<PortKey>;

/// A hash table from group ids to groups.
#[verifier::external_body]
pub struct GroupMap {
    map: HashMap<usize, LogicGroup>,
}

/// What a [`GroupMap`] holds.
pub uninterp spec fn group_map_entries(table: GroupMap) -> Map<usize, LogicGroup>;

impl GroupMap {
    /// Calls `HashMap::default` of hashbrown: the new table holds nothing.
    #[verifier::external_body]
    pub(crate) fn new() -> (table: GroupMap)
        ensures
            group_map_entries(table).dom() == Set::<usize>::empty(),
    {
        GroupMap { map: HashMap::default() }
    }

    /// Calls `HashMap::insert` of hashbrown: afterwards `id` maps to `group` and every other id is as
    /// before; the group that `id` had before is returned.
    #[verifier::external_body]
    pub(crate) fn insert(&mut self, id: usize, group: LogicGroup) -> (previous: Option<LogicGroup>)
        ensures
            group_map_entries(*final(self)) == group_map_entries(*old(self)).insert(id, group),
            previous == if group_map_entries(*old(self)).contains_key(id) {
                Some(group_map_entries(*old(self))[id])
            } else {
                None
            },
    {
        self.map.insert(id, group)
    }

    /// Calls `HashMap::remove` of hashbrown: afterwards `id` is absent and every other id is as before;
    /// the group that `id` had before is returned.
    #[verifier::external_body]
    pub(crate) fn remove(&mut self, id: usize) -> (previous: Option<LogicGroup>)
        ensures
            group_map_entries(*final(self)) == group_map_entries(*old(self)).remove(id),
            previous == if group_map_entries(*old(self)).contains_key(id) {
                Some(group_map_entries(*old(self))[id])
            } else {
                None
            },
    {
        self.map.remove(&id)
    }

    /// Calls `HashMap::get` of hashbrown: the group of `id`, if the table has one.
    #[verifier::external_body]
    pub(crate) fn get(&self, id: usize) -> (group: Option<&LogicGroup>)
        ensures
            group == if group_map_entries(*self).contains_key(id) {
                Some(&group_map_entries(*self)[id])
            } else {
                None
            },
    {
        self.map.get(&id)
    }

    /// Calls `HashMap::keys` of hashbrown and collects what it yields: every id of the table once, in an
    /// order that the table chooses.
    #[verifier::external_body]
    pub(crate) fn ids(&self) -> (ids: Vec<usize>)
        ensures
            ids@.no_duplicates(),
            forall|id: usize| ids@.contains(id) <==> group_map_entries(*self).contains_key(id),
    {
        self.map.keys().copied().collect()
    }
}

impl PortKeyMap {
    /// Calls `HashMap::default` of hashbrown: the new table holds nothing.
    #[verifier::external_body]
    pub(crate) fn new() -> (table: PortKeyMap)
        ensures
            port_key_map_entries(table).dom() == Set::<PortKey>::empty(),
    {
        PortKeyMap { map: HashMap::default() }
    }

    /// Calls `HashMap::insert` of hashbrown: afterwards `key` maps to `value` and every other key is as
    /// before; the value that `key` had before is returned.
    #[verifier::external_body]
    pub(crate) fn insert(&mut self, key: PortKey, value: usize) -> (previous: Option<
        usize,
    >)
        ensures
            port_key_map_entries(*final(self)) == port_key_map_entries(*old(self)).insert(
                key,
                value,
            ),
            previous == if port_key_map_entries(*old(self)).contains_key(key) {
                Some(port_key_map_entries(*old(self))[key])
            } else {
                None
            },
    {
        self.map.insert(key, value)
    }

    /// Calls `HashMap::remove` of hashbrown: afterwards `key` is absent and every other key is as before;
    /// the value that `key` had before is returned.
    #[verifier::external_body]
    pub(crate) fn remove(&mut self, key: PortKey) -> (previous: Option<usize>)
        ensures
            port_key_map_entries(*final(self)) == port_key_map_entries(*old(self)).remove(key),
            previous == if port_key_map_entries(*old(self)).contains_key(key) {
                Some(port_key_map_entries(*old(self))[key])
            } else {
                None
            },
    {
        self.map.remove(&key)
    }

    /// Calls `HashMap::get` of hashbrown: the value of `key`, if the table has one.
    #[verifier::external_body]
    pub(crate) fn get(&self, key: PortKey) -> (value: Option<usize>)
        ensures
            value == if port_key_map_entries(*self).contains_key(key) {
                Some(port_key_map_entries(*self)[key])
            } else {
                None
            },
    {
        self.map.get(&key).copied()
    }
}

impl PortKeySet {
    /// Calls `HashSet::default` of hashbrown: the new set holds nothing.
    #[verifier::external_body]
    pub(crate) fn new() -> (table: PortKeySet)
        ensures
            port_key_set_members(table) == Set::<PortKey>::empty(),
    {
        PortKeySet { set: HashSet::default() }
    }

    /// Calls `HashSet::insert` of hashbrown: afterwards the set holds `key` besides what it held; returns
    /// whether `key` is new to it.
    #[verifier::external_body]
    pub(crate) fn insert(&mut self, key: PortKey) -> (fresh: bool)
        ensures
            port_key_set_members(*final(self)) == port_key_set_members(*old(self)).insert(key),
            fresh == !port_key_set_members(*old(self)).contains(key),
    {
        self.set.insert(key)
    }

    /// Calls `HashSet::contains` of hashbrown: whether the set holds `key`.
    #[verifier::external_body]
    pub(crate) fn contains(&self, key: PortKey) -> (found: bool)
        ensures
            found == port_key_set_members(*self).contains(key),
    {
        self.set.contains(&key)
    }
}

/// The group that each port of one kind belongs to.
pub struct PortIndex {
    table: PortKeyMap,
}

impl View for PortIndex {
    type V = Map<Port, usize>;

    closed spec fn view(&self) -> Map<Port, usize> {
        Map::new(
            |p: Port| port_key_map_entries(self.table).contains_key(p.spec_key()),
            |p: Port| port_key_map_entries(self.table)[p.spec_key()],
        )
    }
}

impl PortIndex {
    /// An index without ports.
    pub fn new() -> (index: PortIndex)
        ensures
            index@.dom() == Set::<Port>::empty(),
    {
        let index = PortIndex { table: PortKeyMap::new() };
        assert(index@.dom() =~= Set::<Port>::empty());
        index
    }

    /// Records that `port` belongs to `group`, in place of what was recorded for it.
    pub fn insert(&mut self, port: Port, group: usize)
        ensures
            final(self)@ == old(self)@.insert(port, group),
    {
        self.table.insert(port.key(), group);
        proof {
            assert forall|p: Port| p.spec_key() == port.spec_key() implies p == port by {
                crate::logic::lemma_port_key_injective(p, port);
            }
            assert(self@ =~= old(self)@.insert(port, group));
        }
    }

    /// Forgets `port`. Returns the group it belonged to.
    pub fn remove(&mut self, port: Port) -> (group: Option<usize>)
        ensures
            final(self)@ == old(self)@.remove(port),
            group == if old(self)@.contains_key(port) {
                Some(old(self)@[port])
            } else {
                None
            },
    {
        let group = self.table.remove(port.key());
        proof {
            assert forall|p: Port| p.spec_key() == port.spec_key() implies p == port by {
                crate::logic::lemma_port_key_injective(p, port);
            }
            assert(self@ =~= old(self)@.remove(port));
        }
        group
    }

    /// The group that `port` belongs to.
    pub fn get(&self, port: Port) -> (group: Option<usize>)
        ensures
            group == if self@.contains_key(port) {
                Some(self@[port])
            } else {
                None
            },
    {
        self.table.get(port.key())
    }
}

/// A set of ports, used to mark what a search has been through.
pub struct PortSet {
    table: PortKeySet,
}

impl View for PortSet {
    type V = Set<Port>;

    closed spec fn view(&self) -> Set<Port> {
        Set::new(|p: Port| port_key_set_members(self.table).contains(p.spec_key()))
    }
}

impl PortSet {
    /// A set without ports.
    pub fn new() -> (set: PortSet)
        ensures
            set@ == Set::<Port>::empty(),
    {
        let set = PortSet { table: PortKeySet::new() };
        assert(set@ =~= Set::<Port>::empty());
        set
    }

    /// Adds `port`. Returns whether it was missing before.
    pub fn insert(&mut self, port: Port) -> (fresh: bool)
        ensures
            final(self)@ == old(self)@.insert(port),
            fresh == !old(self)@.contains(port),
    {
        let fresh = self.table.insert(port.key());
        proof {
            assert forall|p: Port| p.spec_key() == port.spec_key() implies p == port by {
                crate::logic::lemma_port_key_injective(p, port);
            }
            assert(self@ =~= old(self)@.insert(port));
        }
        fresh
    }

    /// Whether the set holds `port`.
    pub fn contains(&self, port: Port) -> (found: bool)
        ensures
            found == self@.contains(port),
    {
        self.table.contains(port.key())
    }
}

} // verus!
