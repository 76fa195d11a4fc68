//! The slot registry: ids are assigned densely from a reserved base,
//! and each id is recorded under the shape of its slot so that inbound
//! frames dispatch on an integer key.

use vstd::prelude::*;

use crate::values::{ReadValue, Signal, Value, ValueEnum, ValueStatic, WriteValue};

verus! {

/// The first id available to slots; smaller ids are reserved for
/// protocol use.
pub const FIRST_SLOT_ID: u32 = 10;

/// The ids registered at startup, one list per slot shape.
pub struct ValuesList {
    pub values: Vec<u32>,
    pub static_values: Vec<u32>,
    pub images: Vec<u32>,
    pub dicts: Vec<u32>,
    pub lists: Vec<u32>,
    pub graphs: Vec<u32>,
}

/// Whether `id` is registered in `ids`.
pub open spec fn registered(ids: Seq<u32>, id: u32) -> bool {
    exists|i: int| 0 <= i < ids.len() && ids[i] == id
}

impl ValuesList {
    /// A fresh, empty registry.
    pub fn new() -> (r: ValuesList)
        ensures
            r.values@ == Seq::<u32>::empty(),
            r.static_values@ == Seq::<u32>::empty(),
            r.images@ == Seq::<u32>::empty(),
            r.dicts@ == Seq::<u32>::empty(),
            r.lists@ == Seq::<u32>::empty(),
            r.graphs@ == Seq::<u32>::empty(),
    {
        let r = ValuesList {
            values: Vec::new(),
            static_values: Vec::new(),
            images: Vec::new(),
            dicts: Vec::new(),
            lists: Vec::new(),
            graphs: Vec::new(),
        };
        proof {
            assert(r.values@ =~= Seq::<u32>::empty());
        }
        r
    }

    /// The registry keeps only what was put in; nothing shrinks, so a
    /// frozen registry needs no further bookkeeping.
    pub fn shrink(&mut self)
        ensures
            *final(self) == *old(self),
    {
    }
}

/// Whether `id` is in the list, by linear search.
pub fn contains_id(ids: &Vec<u32>, id: u32) -> (r: bool)
    ensures
        r == registered(ids@, id),
{
    let n = ids.len();
    let mut i: usize = 0;
    while i < n
        invariant
            i <= n,
            n == ids@.len(),
            forall|j: int| 0 <= j < i ==> ids@[j] != id,
        decreases n - i,
    {
        if ids[i] == id {
            return true;
        }
        i += 1;
    }
    false
}

/// Handing out one fresh id — the counter — keeps every id in range
/// and no id issued twice, wherever in the registry it lands.
proof fn lemma_fresh_id(old_all: Seq<u32>, new_all: Seq<u32>, pos: int, c: u32)
    requires
        0 <= pos <= old_all.len(),
        FIRST_SLOT_ID <= c,
        forall|i: int| 0 <= i < old_all.len() ==> FIRST_SLOT_ID <= #[trigger] old_all[i] < c,
        forall|i: int, j: int|
            0 <= i < j < old_all.len() ==> #[trigger] old_all[i] != #[trigger] old_all[j],
        new_all == old_all.take(pos) + seq![c] + old_all.skip(pos),
    ensures
        forall|i: int| 0 <= i < new_all.len() ==> FIRST_SLOT_ID <= #[trigger] new_all[i] < c + 1,
        forall|i: int, j: int|
            0 <= i < j < new_all.len() ==> #[trigger] new_all[i] != #[trigger] new_all[j],
{
    assert(new_all.len() == old_all.len() + 1);
    assert forall|i: int| 0 <= i < new_all.len() implies #[trigger] new_all[i] == (if i < pos {
        old_all[i]
    } else if i == pos {
        c
    } else {
        old_all[i - 1]
    }) by {
        if i < pos {
            assert(new_all[i] == old_all.take(pos)[i]);
        } else if i > pos {
            assert(new_all[i] == old_all.skip(pos)[i - pos - 1]);
        }
    }
}

/// Builds the registry: assigns ids monotonically from the reserved
/// base and records each slot under its shape.
pub struct ValuesCreator {
    counter: u32,
    val: ValuesList,
}

impl ValuesCreator {
    /// The next id to hand out.
    pub closed spec fn spec_counter(&self) -> u32 {
        self.counter
    }

    /// The registry built so far.
    pub closed spec fn spec_values(&self) -> Seq<u32> {
        self.val.values@
    }

    /// The registered static-value ids.
    pub closed spec fn spec_static_values(&self) -> Seq<u32> {
        self.val.static_values@
    }

    /// The registered image ids.
    pub closed spec fn spec_images(&self) -> Seq<u32> {
        self.val.images@
    }

    /// The registered dictionary ids.
    pub closed spec fn spec_dicts(&self) -> Seq<u32> {
        self.val.dicts@
    }

    /// The registered list ids.
    pub closed spec fn spec_lists(&self) -> Seq<u32> {
        self.val.lists@
    }

    /// The registered graph ids.
    pub closed spec fn spec_graphs(&self) -> Seq<u32> {
        self.val.graphs@
    }

    /// All ids handed out so far, over every shape.
    pub open spec fn spec_all_ids(&self) -> Seq<u32> {
        self.spec_values() + self.spec_static_values() + self.spec_images() + self.spec_dicts()
            + self.spec_lists() + self.spec_graphs()
    }

    /// The registry's invariant: every id comes from the reserved base
    /// on, stays below the counter, and no id is handed out twice.
    pub open spec fn inv(&self) -> bool {
        &&& FIRST_SLOT_ID <= self.spec_counter()
        &&& forall|i: int|
            0 <= i < self.spec_all_ids().len() ==> FIRST_SLOT_ID <= #[trigger] self.spec_all_ids()[
            i] < self.spec_counter()
        &&& forall|i: int, j: int|
            0 <= i < j < self.spec_all_ids().len() ==> #[trigger] self.spec_all_ids()[i] != (
            #[trigger] self.spec_all_ids()[j])
    }

    /// A fresh builder: the first ids are reserved.
    pub fn new() -> (r: ValuesCreator)
        ensures
            r.spec_counter() == FIRST_SLOT_ID,
            r.inv(),
            r.spec_values().len() == 0,
            r.spec_static_values().len() == 0,
            r.spec_images().len() == 0,
            r.spec_dicts().len() == 0,
            r.spec_lists().len() == 0,
            r.spec_graphs().len() == 0,
    {
        ValuesCreator { counter: FIRST_SLOT_ID, val: ValuesList::new() }
    }

    /// Hands out the next id; ids grow one by one, so they are unique.
    fn get_id(&mut self) -> (r: u32)
        requires
            old(self).spec_counter() < u32::MAX,
        ensures
            r == old(self).spec_counter(),
            final(self).spec_counter() == old(self).spec_counter() + 1,
            final(self).spec_values() == old(self).spec_values(),
            final(self).spec_static_values() == old(self).spec_static_values(),
            final(self).spec_images() == old(self).spec_images(),
            final(self).spec_dicts() == old(self).spec_dicts(),
            final(self).spec_lists() == old(self).spec_lists(),
            final(self).spec_graphs() == old(self).spec_graphs(),
    {
        let count = self.counter;
        self.counter = self.counter + 1;
        count
    }

    /// The finished registry.
    pub fn get_values(self) -> (r: ValuesList)
        ensures
            r.values@ == self.spec_values(),
            r.static_values@ == self.spec_static_values(),
            r.images@ == self.spec_images(),
            r.dicts@ == self.spec_dicts(),
            r.lists@ == self.spec_lists(),
            r.graphs@ == self.spec_graphs(),
    {
        let ValuesCreator { counter, mut val } = self;
        val.shrink();
        val
    }

    /// Registers a value slot and hands back its state.
    pub fn add_value<T: WriteValue + ReadValue>(&mut self, value: T) -> (r: Value<T>)
        requires
            old(self).spec_counter() < u32::MAX,
            old(self).inv(),
        ensures
            final(self).inv(),
            r.spec_id() == old(self).spec_counter(),
            r.spec_value() == value@,
            r.spec_pending() == 0,
            final(self).spec_counter() == old(self).spec_counter() + 1,
            final(self).spec_values() == old(self).spec_values().push(old(self).spec_counter()),
    {
        let id = self.get_id();
        self.val.values.push(id);
        proof {
            let pos: int = old(self).spec_values().len() as int;
            assert(self.spec_all_ids() =~= old(self).spec_all_ids().take(pos) + seq![id]
                + old(self).spec_all_ids().skip(pos));
            lemma_fresh_id(old(self).spec_all_ids(), self.spec_all_ids(), pos, id);
        }
        Value::new(id, value)
    }

    /// Registers a static-value slot and hands back its state.
    pub fn add_static_value<T: WriteValue + ReadValue>(&mut self, value: T) -> (r: ValueStatic<T>)
        requires
            old(self).spec_counter() < u32::MAX,
            old(self).inv(),
        ensures
            final(self).inv(),
            r.spec_id() == old(self).spec_counter(),
            r.spec_value() == value@,
            final(self).spec_counter() == old(self).spec_counter() + 1,
            final(self).spec_static_values() == old(self).spec_static_values().push(
                old(self).spec_counter(),
            ),
    {
        let id = self.get_id();
        self.val.static_values.push(id);
        proof {
            let pos: int = (old(self).spec_values().len() + old(self).spec_static_values().len()) as int;
            assert(self.spec_all_ids() =~= old(self).spec_all_ids().take(pos) + seq![id]
                + old(self).spec_all_ids().skip(pos));
            lemma_fresh_id(old(self).spec_all_ids(), self.spec_all_ids(), pos, id);
        }
        ValueStatic::new(id, value)
    }

    /// Registers an enum slot; it dispatches among the value slots.
    pub fn add_enum<T: crate::EnumInt>(&mut self, value: T) -> (r: ValueEnum<T>)
        requires
            old(self).spec_counter() < u32::MAX,
            old(self).inv(),
        ensures
            final(self).inv(),
            r.spec_id() == old(self).spec_counter(),
            r.spec_value() == value,
            r.spec_pending() == 0,
            final(self).spec_counter() == old(self).spec_counter() + 1,
            final(self).spec_values() == old(self).spec_values().push(old(self).spec_counter()),
    {
        let id = self.get_id();
        self.val.values.push(id);
        proof {
            let pos: int = old(self).spec_values().len() as int;
            assert(self.spec_all_ids() =~= old(self).spec_all_ids().take(pos) + seq![id]
                + old(self).spec_all_ids().skip(pos));
            lemma_fresh_id(old(self).spec_all_ids(), self.spec_all_ids(), pos, id);
        }
        ValueEnum::new(id, value)
    }

    /// Registers a signal slot; inbound signal frames dispatch among
    /// the value slots.
    pub fn add_signal<T: WriteValue>(&mut self) -> (r: Signal<T>)
        requires
            old(self).spec_counter() < u32::MAX,
            old(self).inv(),
        ensures
            final(self).inv(),
            r.spec_id() == old(self).spec_counter(),
            final(self).spec_counter() == old(self).spec_counter() + 1,
            final(self).spec_values() == old(self).spec_values().push(old(self).spec_counter()),
    {
        let id = self.get_id();
        self.val.values.push(id);
        proof {
            let pos: int = old(self).spec_values().len() as int;
            assert(self.spec_all_ids() =~= old(self).spec_all_ids().take(pos) + seq![id]
                + old(self).spec_all_ids().skip(pos));
            lemma_fresh_id(old(self).spec_all_ids(), self.spec_all_ids(), pos, id);
        }
        Signal::new(id)
    }

    /// Registers an image slot.
    pub fn add_image(&mut self) -> (r: u32)
        requires
            old(self).spec_counter() < u32::MAX,
            old(self).inv(),
        ensures
            final(self).inv(),
            r == old(self).spec_counter(),
            final(self).spec_counter() == old(self).spec_counter() + 1,
            final(self).spec_images() == old(self).spec_images().push(old(self).spec_counter()),
    {
        let id = self.get_id();
        self.val.images.push(id);
        proof {
            let pos: int = (old(self).spec_values().len() + old(self).spec_static_values().len() + old(self).spec_images().len()) as int;
            assert(self.spec_all_ids() =~= old(self).spec_all_ids().take(pos) + seq![id]
                + old(self).spec_all_ids().skip(pos));
            lemma_fresh_id(old(self).spec_all_ids(), self.spec_all_ids(), pos, id);
        }
        id
    }

    /// Registers a dictionary slot and hands back its mirror.
    pub fn add_dict<K: crate::collections::CollectionItem, V: crate::collections::CollectionItem>(
        &mut self,
    ) -> (r: crate::dict::ValueDict<K, V>)
        requires
            old(self).spec_counter() < u32::MAX,
            old(self).inv(),
        ensures
            final(self).inv(),
            r.spec_id() == old(self).spec_counter(),
            r.spec_pairs().len() == 0,
            r.inv(),
            final(self).spec_counter() == old(self).spec_counter() + 1,
            final(self).spec_dicts() == old(self).spec_dicts().push(old(self).spec_counter()),
    {
        let id = self.get_id();
        self.val.dicts.push(id);
        proof {
            let pos: int = (old(self).spec_values().len() + old(self).spec_static_values().len() + old(self).spec_images().len() + old(self).spec_dicts().len()) as int;
            assert(self.spec_all_ids() =~= old(self).spec_all_ids().take(pos) + seq![id]
                + old(self).spec_all_ids().skip(pos));
            lemma_fresh_id(old(self).spec_all_ids(), self.spec_all_ids(), pos, id);
        }
        crate::dict::ValueDict::new(id)
    }

    /// Registers a list slot and hands back its mirror.
    pub fn add_list<T: crate::collections::CollectionItem>(&mut self) -> (r:
        crate::list::ValueList<T>)
        requires
            old(self).spec_counter() < u32::MAX,
            old(self).inv(),
        ensures
            final(self).inv(),
            r.spec_id() == old(self).spec_counter(),
            r.spec_items().len() == 0,
            final(self).spec_counter() == old(self).spec_counter() + 1,
            final(self).spec_lists() == old(self).spec_lists().push(old(self).spec_counter()),
    {
        let id = self.get_id();
        self.val.lists.push(id);
        proof {
            let pos: int = (old(self).spec_values().len() + old(self).spec_static_values().len() + old(self).spec_images().len() + old(self).spec_dicts().len() + old(self).spec_lists().len()) as int;
            assert(self.spec_all_ids() =~= old(self).spec_all_ids().take(pos) + seq![id]
                + old(self).spec_all_ids().skip(pos));
            lemma_fresh_id(old(self).spec_all_ids(), self.spec_all_ids(), pos, id);
        }
        crate::list::ValueList::new(id)
    }

    /// Registers a graph slot and hands back its mirror.
    pub fn add_graph<T: crate::graphs::GraphElement>(&mut self) -> (r:
        crate::graphs::ValueGraphs<T>)
        requires
            old(self).spec_counter() < u32::MAX,
            old(self).inv(),
        ensures
            final(self).inv(),
            r.spec_id() == old(self).spec_counter(),
            r.spec_count() == 0,
            r.inv(),
            final(self).spec_counter() == old(self).spec_counter() + 1,
            final(self).spec_graphs() == old(self).spec_graphs().push(old(self).spec_counter()),
    {
        let id = self.get_id();
        self.val.graphs.push(id);
        proof {
            let pos: int = old(self).spec_all_ids().len() as int;
            assert(self.spec_all_ids() =~= old(self).spec_all_ids().take(pos) + seq![id]
                + old(self).spec_all_ids().skip(pos));
            lemma_fresh_id(old(self).spec_all_ids(), self.spec_all_ids(), pos, id);
        }
        crate::graphs::ValueGraphs::new(id)
    }
}

} // verus!
