//! What a client keeps of the items and inventories that the server tells it of.

use crate::items::ItemError;
use crate::protocol::{ItemDef, ItemStackView};
use vstd::prelude::*;

verus! {

/// The definitions of the items that the client knows, by name. No two of
/// them have the same name.
pub struct ClientItemManager {
    item_defs: Vec<ItemDef>,
}

/// Whether definition `i` is the first of `defs` whose name occurs earlier in `defs`.
pub open spec fn is_first_duplicate(defs: Seq<ItemDef>, i: int) -> bool {
    &&& 0 <= i < defs.len()
    &&& exists|j: int| 0 <= j < i && #[trigger] defs[j].short_name@ == defs[i].short_name@
    &&& forall|a: int, b: int|
        0 <= a < b < i ==> (#[trigger] defs[a]).short_name@ != (#[trigger] defs[b]).short_name@
}

/// Whether no two of `defs` have the same name.
pub open spec fn names_differ(defs: Seq<ItemDef>) -> bool {
    forall|a: int, b: int|
        0 <= a < b < defs.len() ==> (#[trigger] defs[a]).short_name@ != (
        #[trigger] defs[b]).short_name@
}

impl ClientItemManager {
    /// The definitions, in the order in which they were given.
    pub closed spec fn view(&self) -> Seq<ItemDef> {
        self.item_defs@
    }

    /// Whether an item of that name is known.
    pub open spec fn is_known(&self, name: Seq<char>) -> bool {
        exists|i: int| 0 <= i < self@.len() && #[trigger] self@[i].short_name@ == name
    }

    /// The manager of the given definitions. Fails with the name of the
    /// first definition whose name was given before.
    pub fn new(items: Vec<ItemDef>) -> (result: Result<ClientItemManager, ItemError>)
        ensures
            match result {
                Ok(manager) => names_differ(items@) && manager@ == items@,
                Err(ItemError::AlreadyRegistered { name }) => exists|i: int|
                    is_first_duplicate(items@, i) && name@ == (#[trigger] items@[i]).short_name@,
            },
    {
        let mut i: usize = 0;
        while i < items.len()
            invariant
                i <= items.len(),
                forall|a: int, b: int|
                    0 <= a < b < i ==> (#[trigger] items@[a]).short_name@ != (
                    #[trigger] items@[b]).short_name@,
            decreases items.len() - i,
        {
            let mut j: usize = 0;
            while j < i
                invariant
                    j <= i < items.len(),
                    forall|k: int|
                        0 <= k < j ==> (#[trigger] items@[k]).short_name@
                            != items@[i as int].short_name@,
                    forall|a: int, b: int|
                        0 <= a < b < i ==> (#[trigger] items@[a]).short_name@ != (
                        #[trigger] items@[b]).short_name@,
                decreases i - j,
            {
                if items[j].short_name == items[i].short_name {
                    assert(items@[j as int].short_name@ == items@[i as int].short_name@);
                    assert(is_first_duplicate(items@, i as int));
                    return Err(ItemError::AlreadyRegistered { name: items[i].short_name.clone() });
                }
                j = j + 1;
            }
            i = i + 1;
        }
        Ok(ClientItemManager { item_defs: items })
    }

    /// The definition of the item of the given name.
    pub fn get(&self, name: &str) -> (found: Option<&ItemDef>)
        ensures
            match found {
                Some(def) => def.short_name@ == name@ && self@.contains(*def),
                None => !self.is_known(name@),
            },
    {
        let wanted = name.to_owned();
        let mut i: usize = 0;
        while i < self.item_defs.len()
            invariant
                i <= self.item_defs.len(),
                wanted@ == name@,
                forall|k: int| 0 <= k < i ==> (#[trigger] self@[k]).short_name@ != name@,
            decreases self.item_defs.len() - i,
        {
            if self.item_defs[i].short_name == wanted {
                return Some(&self.item_defs[i]);
            }
            i = i + 1;
        }
        None
    }

    /// All definitions, in the order in which they were given.
    pub fn all_item_defs(&self) -> (defs: &Vec<ItemDef>)
        ensures
            defs@ == self@,
    {
        &self.item_defs
    }
}

/// An inventory as the client shows it.
#[derive(Debug)]
pub struct ClientInventory {
    dimensions: (u32, u32),
    stacks: Vec<Option<crate::protocol::ItemStack>>,
}

/// The slot that a record stands for: an empty one where its name is empty.
pub open spec fn shown_slot(record: ItemStackView) -> Option<ItemStackView> {
    if record.item_name.len() == 0 {
        None
    } else {
        Some(record)
    }
}

/// The slots that a list of records stands for.
pub open spec fn shown_slots(records: Seq<ItemStackView>) -> Seq<Option<ItemStackView>> {
    records.map_values(|record: ItemStackView| shown_slot(record))
}

impl View for ClientInventory {
    type V = Seq<Option<ItemStackView>>;

    closed spec fn view(&self) -> Seq<Option<ItemStackView>> {
        self.stacks.deep_view()
    }
}

impl ClientInventory {
    /// The dimensions of the inventory: rows, then columns.
    pub closed spec fn spec_dimensions(&self) -> (u32, u32) {
        self.dimensions
    }

    /// The dimensions of the inventory: rows, then columns.
    pub fn dimensions(&self) -> (dimensions: (u32, u32))
        ensures
            dimensions == self.spec_dimensions(),
    {
        self.dimensions
    }

    /// The inventory that a record stands for. The record is taken as it is:
    /// its slots are not counted against its dimensions.
    pub fn from_proto(proto: crate::protocol::Inventory) -> (inventory: ClientInventory)
        ensures
            inventory.spec_dimensions() == (proto.height, proto.width),
            inventory@ == shown_slots(proto@.contents),
    {
        let mut stacks: Vec<Option<crate::protocol::ItemStack>> = Vec::new();
        let mut i: usize = 0;
        assert(stacks.deep_view() =~= shown_slots(proto@.contents.take(0)));
        while i < proto.contents.len()
            invariant
                i <= proto.contents.len(),
                stacks.deep_view() == shown_slots(proto@.contents.take(i as int)),
            decreases proto.contents.len() - i,
        {
            let ghost done = stacks.deep_view();
            let record = &proto.contents[i];
            let slot = if record.item_name.as_str().is_empty() {
                None
            } else {
                Some(record.clone())
            };
            stacks.push(slot);
            assert(stacks.deep_view() =~= done.push(slot.deep_view()));
            assert(proto@.contents[i as int] == proto.contents@[i as int]@);
            assert(stacks.deep_view() =~= shown_slots(proto@.contents.take(i + 1)));
            i = i + 1;
        }
        assert(proto@.contents.take(i as int) =~= proto@.contents);
        ClientInventory { dimensions: (proto.height, proto.width), stacks }
    }

    /// The item stacks of the inventory, slot by slot.
    pub fn contents(&self) -> (slots: &[Option<crate::protocol::ItemStack>])
        ensures
            slots.deep_view() == self@,
    {
        self.stacks.as_slice()
    }

    /// A mutable ref to one of the item stacks of the inventory.
    pub fn contents_mut(&mut self, slot: usize) -> (stack: &mut Option<crate::protocol::ItemStack>)
        requires
            slot < old(self)@.len(),
        ensures
            stack.deep_view() == old(self)@[slot as int],
            final(self)@ == old(self)@.update(slot as int, final(stack).deep_view()),
            final(self).spec_dimensions() == old(self).spec_dimensions(),
    {
        &mut self.stacks[slot]
    }
}

} // verus!
