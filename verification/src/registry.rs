//! Tables of the things a game knows by name: blocks, and the logic roles of blocks.

use vstd::prelude::*;

verus! {

/// Something a [`Registry`] can hold: it has a name that is chosen by whoever defines it, and
/// a numeric id that the registry hands out.
pub trait Identifiable: Sized {
    /// The numeric id.
    spec fn spec_id(&self) -> u16;

    /// The name, as text.
    spec fn spec_unlocalized_name(&self) -> Seq<char>;

    /// This item with another numeric id and nothing else changed.
    spec fn spec_with_id(&self, id: u16) -> Self;

    /// Changing the id changes the id and keeps the name.
    proof fn lemma_with_id(&self, id: u16)
        ensures
            self.spec_with_id(id).spec_id() == id,
            self.spec_with_id(id).spec_unlocalized_name() == self.spec_unlocalized_name(),
    ;

    /// The numeric id.
    fn id(&self) -> (id: u16)
        ensures
            id == self.spec_id(),
    ;

    /// Gives the item the numeric id that its registry chose for it.
    fn set_numeric_id(&mut self, id: u16)
        ensures
            *final(self) == old(self).spec_with_id(id),
    ;

    /// The name.
    fn unlocalized_name(&self) -> (name: &str)
        ensures
            name@ == self.spec_unlocalized_name(),
    ;

    /// Whether the item's name is `name`, character for character.
    fn is_named(&self, name: &String) -> (same: bool)
        ensures
            same == (self.spec_unlocalized_name() == name@),
    ;
}

/// The position in `items` of the last item named `name` among the first `end` items.
pub open spec fn last_named<T: Identifiable>(items: Seq<T>, name: Seq<char>, end: int) -> Option<
    int,
>
    decreases end,
{
    if end <= 0 {
        None
    } else if items[end - 1].spec_unlocalized_name() == name {
        Some(end - 1)
    } else {
        last_named(items, name, end - 1)
    }
}

/// What [`last_named`] finds is an item of that name, and nothing after it has that name;
/// it finds nothing only where no item has that name.
pub proof fn lemma_last_named<T: Identifiable>(items: Seq<T>, name: Seq<char>, end: int)
    requires
        0 <= end <= items.len(),
    ensures
        match last_named(items, name, end) {
            Some(i) => 0 <= i < end && items[i].spec_unlocalized_name() == name && forall|j: int|
                i < j < end ==> items[j].spec_unlocalized_name() != name,
            None => forall|j: int| 0 <= j < end ==> items[j].spec_unlocalized_name() != name,
        },
    decreases end,
{
    if end > 0 && items[end - 1].spec_unlocalized_name() != name {
        lemma_last_named(items, name, end - 1);
    }
}

/// A table of items. Each item is found by its numeric id, which is its position in the
/// table, and by its name.
pub struct Registry<T> {
    contents: Vec<T>,
}

impl<T: Identifiable> Registry<T> {
    /// The items in the order of their numeric ids.
    pub closed spec fn items(&self) -> Seq<T> {
        self.contents@
    }

    /// The registry's invariant: the numeric id of each item is its position.
    pub open spec fn wf(&self) -> bool {
        &&& self.items().len() <= u16::MAX + 1
        &&& forall|i: int| 0 <= i < self.items().len() ==> (#[trigger] self.items()[i]).spec_id() == i
    }

    /// The item named `name`: the one registered last, where several have that name.
    pub open spec fn spec_from_id(&self, name: Seq<char>) -> Option<T> {
        match last_named(self.items(), name, self.items().len() as int) {
            Some(i) => Some(self.items()[i]),
            None => None,
        }
    }

    /// The item with the numeric id `id`, if one is registered.
    pub open spec fn spec_get(&self, id: u16) -> Option<T> {
        if id < self.items().len() {
            Some(self.items()[id as int])
        } else {
            None
        }
    }

    /// An empty registry.
    pub fn new() -> (registry: Registry<T>)
        ensures
            registry.wf(),
            registry.items().len() == 0,
    {
        Registry { contents: Vec::new() }
    }

    /// Adds `item` at the end and gives it the next numeric id.
    pub fn register(&mut self, item: T)
        requires
            old(self).wf(),
            old(self).items().len() <= u16::MAX,
        ensures
            final(self).wf(),
            final(self).items() == old(self).items().push(
                item.spec_with_id(old(self).items().len() as u16),
            ),
    {
        let mut item = item;
        let id = self.contents.len() as u16;
        proof {
            item.lemma_with_id(id);
        }
        item.set_numeric_id(id);
        self.contents.push(item);
    }

    /// How many items are registered.
    pub fn len(&self) -> (n: usize)
        ensures
            n == self.items().len(),
    {
        self.contents.len()
    }

    /// The item named `name`, if there is one: the last one registered under that name.
    pub fn from_id(&self, name: &str) -> (found: Option<&T>)
        ensures
            match found {
                Some(item) => self.spec_from_id(name@) == Some(*item),
                None => self.spec_from_id(name@).is_none(),
            },
    {
        let wanted = name.to_owned();
        let mut end = self.contents.len();
        while end > 0
            invariant
                end <= self.contents@.len(),
                wanted@ == name@,
                last_named(self.items(), name@, self.items().len() as int) == last_named(
                    self.items(),
                    name@,
                    end as int,
                ),
            decreases end,
        {
            if self.contents[end - 1].is_named(&wanted) {
                return Some(&self.contents[end - 1]);
            }
            end -= 1;
        }
        None
    }

    /// The item with the numeric id `id`.
    pub fn from_numeric_id(&self, id: u16) -> (item: &T)
        requires
            id < self.items().len(),
        ensures
            self.spec_get(id) == Some(*item),
    {
        &self.contents[id as usize]
    }

    /// The item with the numeric id `id`, if one is registered.
    pub fn get(&self, id: u16) -> (found: Option<&T>)
        ensures
            match found {
                Some(item) => self.spec_get(id) == Some(*item),
                None => self.spec_get(id).is_none(),
            },
    {
        if (id as usize) < self.contents.len() {
            Some(&self.contents[id as usize])
        } else {
            None
        }
    }
}

} // verus!
