//! Containers of item stacks.

use crate::database::KeySpace;
use crate::items::{
    fits_slot, lemma_merge_conserves_each_kind, lemma_merge_conserves_quantity, merge_slot,
    slot_quantity, slot_quantity_of, ItemStack, MaybeStack,
};
use crate::protocol::{InventoryRecordView, ItemStackView};
use vstd::prelude::*;

verus! {

/// Why an operation on inventories failed.
#[derive(Clone, Copy, Debug, PartialEq, Eq, Structural)]
pub enum InventoryError {
    /// The dimensions are not those of an inventory: one of them is zero, or
    /// the number of slots is too large to count.
    Dimension,
    /// No inventory is stored under the key.
    NotFound,
    /// What is stored does not hold an inventory. It is lost.
    Corruption,
    /// The slot lies outside the inventory or view.
    Range,
    /// The store failed.
    Store,
    /// The view was cleared and can no longer be used.
    Cleared,
    /// The caller's own logic gave up.
    Aborted,
    /// The caller's own logic left another inventory in place of the one it
    /// was given: one with another key, other dimensions, or another number
    /// of slots. An inventory never changes its shape.
    Shape,
}

/// The bytes of a fresh random identifier.
///
/// Calls `uuid::Uuid::new_v4`, which takes 128 random bits from the operating
/// system and overwrites six of them with the marks of a random (version 4)
/// identifier: the high half of byte 6 is 4, and the two high bits of byte 8
/// are 1 and 0. Nothing is claimed of the other bits: that two identifiers
/// differ is likely and not proved. On a machine whose operating system
/// gives no random bits the call does not return, as where memory runs out.
#[verifier::external_body]
fn random_uuid_bytes() -> (id: [u8; 16])
    ensures
        id@[6] / 16 == 4,
        id@[8] / 64 == 2,
{
    uuid::Uuid::new_v4().into_bytes()
}

/// Opaque unique identifier for an inventory.
#[derive(Clone, Copy, Eq, PartialOrd, Ord, Debug, Hash)]
pub struct InventoryKey {
    id: [u8; 16],
}

impl View for InventoryKey {
    type V = Seq<u8>;

    closed spec fn view(&self) -> Seq<u8> {
        self.id@
    }
}

impl PartialEq for InventoryKey {
    fn eq(&self, other: &InventoryKey) -> (r: bool)
    {
        let mut i: usize = 0;
        while i < 16
            invariant
                i <= 16,
                forall|k: int| 0 <= k < i ==> self.id@[k] == other.id@[k],
            decreases 16 - i,
        {
            if self.id[i] != other.id[i] {
                return false;
            }
            i = i + 1;
        }
        assert(self.id =~= other.id);
        true
    }
}

impl vstd::std_specs::cmp::PartialEqSpecImpl for InventoryKey {
    open spec fn obeys_eq_spec() -> bool {
        true
    }

    open spec fn eq_spec(&self, other: &InventoryKey) -> bool {
        *self == *other
    }
}

impl InventoryKey {
    /// Converts an InventoryKey to an opaque byte string.
    pub fn as_bytes(&self) -> (bytes: &[u8])
        ensures
            bytes@ == self@,
            bytes@.len() == 16,
    {
        self.id.as_slice()
    }

    /// The key of the store under which the inventory with this key is kept.
    pub open spec fn spec_db_key(self) -> Seq<u8> {
        KeySpace::Inventory.spec_make_key(self@)
    }

    /// The key of the store under which the inventory with this key is kept.
    pub fn to_db_key(self) -> (db_key: Vec<u8>)
        ensures
            db_key@ == self.spec_db_key(),
    {
        KeySpace::Inventory.make_key(self.id.as_slice())
    }

    /// A key that no inventory has yet, as far as chance allows: a random
    /// identifier of 122 bits, with the marks of a random (version 4)
    /// identifier in the other six.
    pub fn random() -> (key: InventoryKey)
        ensures
            key@.len() == 16,
            key@[6] / 16 == 4,
            key@[8] / 64 == 2,
    {
        InventoryKey { id: random_uuid_bytes() }
    }

    /// Converts an opaque byte string to an InventoryKey. The string has to
    /// be one that `as_bytes` gave: any 16 bytes are.
    pub fn parse_bytes(bytes: &[u8]) -> (result: Result<InventoryKey, InventoryError>)
        ensures
            result is Ok <==> bytes@.len() == 16,
            result matches Ok(key) ==> key@ == bytes@,
            result matches Err(e) ==> e == InventoryError::Corruption,
    {
        if bytes.len() != 16 {
            return Err(InventoryError::Corruption);
        }
        let mut id = [0u8; 16];
        let mut i: usize = 0;
        while i < 16
            invariant
                i <= 16,
                bytes@.len() == 16,
                forall|k: int| 0 <= k < i ==> id@[k] == bytes@[k],
            decreases 16 - i,
        {
            id[i] = bytes[i];
            i = i + 1;
        }
        assert(id@ =~= bytes@);
        Ok(InventoryKey { id })
    }
}

/// Keys are equal exactly if their bytes are.
pub proof fn lemma_key_bytes_are_injective(a: InventoryKey, b: InventoryKey)
    ensures
        a@ == b@ <==> a == b,
        a@.len() == 16,
{
    if a@ == b@ {
        assert(a.id =~= b.id);
    }
}

/// Inventories have the same key in the store exactly if they have the same key.
pub proof fn lemma_db_keys_are_injective(a: InventoryKey, b: InventoryKey)
    ensures
        a.spec_db_key() == b.spec_db_key() <==> a == b,
{
    crate::database::lemma_key_spaces_are_disjoint(KeySpace::Inventory, KeySpace::Inventory, a@, b@);
    lemma_key_bytes_are_injective(a, b);
}

/// The record that is written for a slot: the stack's own, or the record
/// with an empty name for an empty slot.
pub open spec fn slot_record(slot: Option<ItemStackView>) -> ItemStackView {
    match slot {
        Some(stack) => stack,
        None => ItemStackView::empty(),
    }
}

/// The slot that a record stands for: an empty one where its name is empty.
pub open spec fn record_slot(record: ItemStackView) -> Option<ItemStackView> {
    if record.item_name.len() == 0 {
        None
    } else {
        Some(record)
    }
}

/// The slots that a list of records stands for.
pub open spec fn slots_of_records(records: Seq<ItemStackView>) -> Seq<Option<ItemStackView>> {
    records.map_values(|record: ItemStackView| record_slot(record))
}

/// The records that are written for a list of slots.
pub open spec fn records_of_slots(slots: Seq<Option<ItemStackView>>) -> Seq<ItemStackView> {
    slots.map_values(|slot: Option<ItemStackView>| slot_record(slot))
}

/// A record with other slots.
pub open spec fn record_with_slots(
    record: InventoryRecordView,
    slots: Seq<Option<ItemStackView>>,
) -> InventoryRecordView {
    InventoryRecordView { contents: records_of_slots(slots), ..record }
}

/// Whether a record has the shape of an inventory: it has at least one
/// slot, and as many as its dimensions say.
pub open spec fn record_is_inventory(record: InventoryRecordView) -> bool {
    &&& 0 < record.width * record.height <= u32::MAX
    &&& record.contents.len() == record.width * record.height
}

/// Slots and a stack that did not fit into them.
pub struct SlotsOutcome {
    pub slots: Seq<Option<ItemStackView>>,
    pub left: Option<ItemStackView>,
}

/// Merging `stack` into the filled slots from `from` on, in order, each
/// taking what it accepts, until nothing is left.
pub open spec fn merge_from(slots: Seq<Option<ItemStackView>>, from: int, stack: ItemStackView) -> SlotsOutcome
    decreases slots.len() - from,
{
    if from < 0 || from >= slots.len() {
        SlotsOutcome { slots, left: Some(stack) }
    } else {
        match slots[from] {
            None => merge_from(slots, from + 1, stack),
            Some(held) => match held.leftover(stack) {
                None => SlotsOutcome {
                    slots: slots.update(from, Some(held.merged(stack))),
                    left: None,
                },
                Some(rest) => merge_from(
                    slots.update(from, Some(held.merged(stack))),
                    from + 1,
                    rest,
                ),
            },
        }
    }
}

/// Whether slot `i` is the first empty one.
pub open spec fn is_first_empty(slots: Seq<Option<ItemStackView>>, i: int) -> bool {
    &&& 0 <= i < slots.len()
    &&& slots[i] is None
    &&& forall|j: int| 0 <= j < i ==> (#[trigger] slots[j]) is Some
}

/// Inserting `stack`: it is merged into the filled slots in order, and what
/// is left goes whole into the first empty slot. Where there is none, it is
/// handed back.
pub open spec fn inserted(slots: Seq<Option<ItemStackView>>, stack: ItemStackView) -> SlotsOutcome {
    let merged = merge_from(slots, 0, stack);
    match merged.left {
        None => merged,
        Some(rest) => if exists|i: int| is_first_empty(merged.slots, i) {
            SlotsOutcome {
                slots: merged.slots.update(
                    choose|i: int| is_first_empty(merged.slots, i),
                    Some(rest),
                ),
                left: None,
            }
        } else {
            merged
        },
    }
}

/// Giving `stack` back to the slot that it was taken from: it is merged into
/// that slot, and what the slot does not take is inserted like any other
/// stack. Where there is no such slot, all of it is inserted.
pub open spec fn given_back(slots: Seq<Option<ItemStackView>>, slot: int, stack: ItemStackView) -> SlotsOutcome {
    if 0 <= slot < slots.len() {
        match merge_slot(slots[slot], Some(stack)).out {
            None => SlotsOutcome {
                slots: slots.update(slot, merge_slot(slots[slot], Some(stack)).slot),
                left: None,
            },
            Some(rest) => inserted(
                slots.update(slot, merge_slot(slots[slot], Some(stack)).slot),
                rest,
            ),
        }
    } else {
        inserted(slots, stack)
    }
}

/// The shape of an inventory: what never changes of it.
#[derive(Clone, Copy, Debug)]
pub struct InventoryShape {
    pub key: InventoryKey,
    /// Rows, then columns.
    pub dimensions: (u32, u32),
    /// The number of slots.
    pub slots: usize,
}

/// Server-side representation of an inventory: a grid of slots, each empty
/// or holding a stack. Its shape never changes.
#[derive(Debug)]
pub struct Inventory {
    key: InventoryKey,
    dimensions: (u32, u32),
    contents: Vec<Option<ItemStack>>,
}

impl View for Inventory {
    type V = Seq<Option<ItemStackView>>;

    closed spec fn view(&self) -> Seq<Option<ItemStackView>> {
        self.contents.deep_view()
    }
}

impl Inventory {
    /// The key of the inventory.
    pub closed spec fn spec_key(&self) -> InventoryKey {
        self.key
    }

    /// The dimensions of the inventory: rows, then columns.
    pub closed spec fn spec_dimensions(&self) -> (u32, u32) {
        self.dimensions
    }

    /// The shape invariant: the inventory has at least one slot, and as many
    /// as its dimensions say.
    pub open spec fn wf(&self) -> bool {
        &&& 0 < self.spec_dimensions().0 * self.spec_dimensions().1 <= u32::MAX
        &&& self@.len() == self.spec_dimensions().0 * self.spec_dimensions().1
    }

    /// Whether the inventory has the given shape.
    pub open spec fn spec_has_shape(&self, shape: InventoryShape) -> bool {
        &&& self.spec_key() == shape.key
        &&& self.spec_dimensions() == shape.dimensions
        &&& self@.len() == shape.slots
    }

    /// Whether the two inventories have the same key, the same dimensions
    /// and the same number of slots.
    pub open spec fn same_shape_as(&self, other: &Inventory) -> bool {
        &&& self.spec_key() == other.spec_key()
        &&& self.spec_dimensions() == other.spec_dimensions()
        &&& self@.len() == other@.len()
    }

    /// The record that is written for the inventory.
    pub open spec fn spec_to_proto(&self) -> InventoryRecordView {
        InventoryRecordView {
            height: self.spec_dimensions().0,
            width: self.spec_dimensions().1,
            contents: records_of_slots(self@),
        }
    }

    /// Whether this is the inventory that a record stands for, under the given key.
    pub open spec fn is_from_proto(&self, record: InventoryRecordView, key: InventoryKey) -> bool {
        &&& self.spec_key() == key
        &&& self.spec_dimensions() == (record.height, record.width)
        &&& self@ == slots_of_records(record.contents)
    }

    /// The key of the inventory.
    pub fn key(&self) -> (key: InventoryKey)
        ensures
            key == self.spec_key(),
    {
        self.key
    }

    /// The dimensions of the inventory: rows, then columns.
    pub fn dimensions(&self) -> (dimensions: (u32, u32))
        ensures
            dimensions == self.spec_dimensions(),
    {
        self.dimensions
    }

    /// A new inventory of the given dimensions (rows, then columns), with a
    /// fresh key and all slots empty.
    pub fn new(dimensions: (u32, u32)) -> (result: Result<Inventory, InventoryError>)
        ensures
            result is Ok <==> 0 < dimensions.0 * dimensions.1 <= u32::MAX,
            result matches Ok(inventory) ==> {
                &&& inventory.wf()
                &&& inventory.spec_dimensions() == dimensions
                &&& forall|i: int| 0 <= i < inventory@.len() ==> inventory@[i] is None
            },
            result matches Err(e) ==> e == InventoryError::Dimension,
    {
        if dimensions.0 == 0 || dimensions.1 == 0 {
            assert(dimensions.0 * dimensions.1 == 0) by (nonlinear_arith)
                requires
                    dimensions.0 == 0 || dimensions.1 == 0,
            ;
            return Err(InventoryError::Dimension);
        }
        let len = match dimensions.0.checked_mul(dimensions.1) {
            Some(len) => len,
            None => {
                return Err(InventoryError::Dimension);
            },
        };
        assert(0 < dimensions.0 * dimensions.1) by (nonlinear_arith)
            requires
                dimensions.0 > 0,
                dimensions.1 > 0,
        ;
        let mut contents: Vec<Option<ItemStack>> = Vec::new();
        let mut i: u32 = 0;
        while i < len
            invariant
                i <= len,
                contents.len() == i,
                forall|k: int| 0 <= k < i ==> contents@[k] is None,
            decreases len - i,
        {
            contents.push(None);
            i = i + 1;
        }
        let inventory = Inventory { key: InventoryKey::random(), dimensions, contents };
        assert forall|k: int| 0 <= k < inventory@.len() implies inventory@[k] is None by {
            assert(inventory.contents@[k] is None);
        }
        Ok(inventory)
    }

    /// The inventory that a record stands for, under the given key.
    pub fn from_proto(proto: crate::protocol::Inventory, key: InventoryKey) -> (result: Result<
        Inventory,
        InventoryError,
    >)
        ensures
            result is Ok <==> record_is_inventory(proto@),
            result matches Ok(inventory) ==> inventory.wf() && inventory.is_from_proto(proto@, key),
            result matches Err(e) ==> e == InventoryError::Corruption,
    {
        let size = match proto.width.checked_mul(proto.height) {
            Some(size) => size,
            None => {
                return Err(InventoryError::Corruption);
            },
        };
        assert(proto.width * proto.height == proto.height * proto.width) by (nonlinear_arith);
        if size as usize != proto.contents.len() || size == 0 {
            return Err(InventoryError::Corruption);
        }
        let mut contents: Vec<Option<ItemStack>> = Vec::new();
        let mut i: usize = 0;
        assert(contents.deep_view() =~= slots_of_records(proto@.contents.take(0)));
        while i < proto.contents.len()
            invariant
                i <= proto.contents.len(),
                contents.deep_view() == slots_of_records(proto@.contents.take(i as int)),
            decreases proto.contents.len() - i,
        {
            let ghost done = contents.deep_view();
            let slot = ItemStack::from_proto(&proto.contents[i]);
            contents.push(slot);
            assert(contents.deep_view() =~= done.push(slot.deep_view()));
            assert(proto@.contents[i as int] == proto.contents@[i as int]@);
            assert(contents.deep_view() =~= slots_of_records(proto@.contents.take(i + 1)));
            i = i + 1;
        }
        assert(proto@.contents.take(i as int) =~= proto@.contents);
        Ok(Inventory { key, dimensions: (proto.height, proto.width), contents })
    }

    /// The record that is written for the inventory.
    pub fn to_proto(&self) -> (proto: crate::protocol::Inventory)
        ensures
            proto@ == self.spec_to_proto(),
    {
        let mut contents: Vec<crate::protocol::ItemStack> = Vec::new();
        let mut i: usize = 0;
        assert(contents.deep_view() =~= records_of_slots(self@.take(0)));
        while i < self.contents.len()
            invariant
                i <= self.contents.len(),
                contents.deep_view() == records_of_slots(self@.take(i as int)),
            decreases self.contents.len() - i,
        {
            let ghost done = contents.deep_view();
            let record = match &self.contents[i] {
                Some(stack) => stack.proto().clone(),
                None => crate::protocol::ItemStack {
                    item_name: String::new(),
                    quantity: 0,
                    max_stack: 0,
                    stackable: false,
                },
            };
            contents.push(record);
            assert(contents.deep_view() =~= done.push(record@));
            assert(self@[i as int] == self.contents@[i as int].deep_view());
            assert(record@ == slot_record(self@[i as int]));
            assert(contents.deep_view() =~= records_of_slots(self@.take(i + 1)));
            i = i + 1;
        }
        assert(self@.take(i as int) =~= self@);
        crate::protocol::Inventory {
            height: self.dimensions.0,
            width: self.dimensions.1,
            contents,
        }
    }

    /// Get a mutable ref to one of the itemstacks in this inventory. This can be
    /// used to modify it, but cannot change the size or structure of the
    /// inventory itself.
    pub fn contents_mut(&mut self, slot: usize) -> (stack: &mut Option<ItemStack>)
        requires
            slot < old(self)@.len(),
        ensures
            stack.deep_view() == old(self)@[slot as int],
            final(self)@ == old(self)@.update(slot as int, final(stack).deep_view()),
            final(self).spec_key() == old(self).spec_key(),
            final(self).spec_dimensions() == old(self).spec_dimensions(),
            old(self).wf() ==> final(self).wf(),
    {
        &mut self.contents[slot]
    }

    /// The shape of the inventory.
    pub fn shape(&self) -> (shape: InventoryShape)
        ensures
            self.spec_has_shape(shape),
    {
        InventoryShape { key: self.key, dimensions: self.dimensions, slots: self.contents.len() }
    }

    /// Whether the inventory has the given shape.
    pub fn has_shape(&self, shape: &InventoryShape) -> (same: bool)
        ensures
            same == self.spec_has_shape(*shape),
    {
        self.key == shape.key && self.dimensions.0 == shape.dimensions.0 && self.dimensions.1
            == shape.dimensions.1 && self.contents.len() == shape.slots
    }

    /// The number of slots.
    pub fn len(&self) -> (len: usize)
        ensures
            len == self@.len(),
    {
        self.contents.len()
    }

    /// The item stacks of the inventory, slot by slot.
    pub fn into_contents(self) -> (slots: Vec<Option<ItemStack>>)
        ensures
            slots.deep_view() == self@,
    {
        self.contents
    }

    /// Get a reference that can be used to read the item stacks
    /// in the inventory.
    pub fn contents(&self) -> (slots: &[Option<ItemStack>])
        ensures
            slots.deep_view() == self@,
    {
        self.contents.as_slice()
    }

    /// Gives a stack back to the slot that it was taken from. The stack is
    /// merged into that slot; what the slot does not take is inserted into
    /// the inventory like any other stack; what fits nowhere is handed back.
    pub fn give_back(&mut self, slot: usize, stack: ItemStack) -> (left: Option<ItemStack>)
        ensures
            final(self)@ == given_back(old(self)@, slot as int, stack@).slots,
            left.deep_view() == given_back(old(self)@, slot as int, stack@).left,
            final(self)@.len() == old(self)@.len(),
            final(self).spec_key() == old(self).spec_key(),
            final(self).spec_dimensions() == old(self).spec_dimensions(),
            old(self).wf() ==> final(self).wf(),
    {
        if slot < self.contents.len() {
            match self.contents_mut(slot).try_merge(Some(stack)) {
                Some(rest) => self.try_insert(rest),
                None => None,
            }
        } else {
            self.try_insert(stack)
        }
    }

    /// Try to insert the given item stack into the given inventory.
    /// This will try to merge the given item stack with existing item stacks
    /// that still have space, if merging is possible. What does not fit goes
    /// into the first empty slot, and is handed back where there is none.
    pub fn try_insert(&mut self, stack: ItemStack) -> (left: Option<ItemStack>)
        ensures
            final(self)@ == inserted(old(self)@, stack@).slots,
            left.deep_view() == inserted(old(self)@, stack@).left,
            final(self)@.len() == old(self)@.len(),
            final(self).spec_key() == old(self).spec_key(),
            final(self).spec_dimensions() == old(self).spec_dimensions(),
            old(self).wf() ==> final(self).wf(),
    {
        let ghost before = self@;
        let ghost first = stack@;
        let mut current = stack;
        // Try to merge with existing items
        let mut i: usize = 0;
        while i < self.contents.len()
            invariant
                i <= self.contents.len(),
                self@.len() == before.len(),
                self.spec_key() == old(self).spec_key(),
                self.spec_dimensions() == old(self).spec_dimensions(),
                before == old(self)@,
                first == stack@,
                merge_from(before, 0, first) == merge_from(self@, i as int, current@),
            decreases self.contents.len() - i,
        {
            if self.contents[i].is_some() {
                let ghost slots = self@;
                let ghost held = self@[i as int].unwrap();
                let ghost moving = current@;
                assert(self@[i as int] == self.contents@[i as int].deep_view());
                let rest = self.contents[i].try_merge(Some(current));
                assert(self@ =~= slots.update(i as int, Some(held.merged(moving))));
                assert(merge_from(slots, i as int, moving) == (match held.leftover(moving) {
                    None => SlotsOutcome { slots: self@, left: None },
                    Some(rest) => merge_from(self@, i + 1, rest),
                }));
                match rest {
                    // If we have remaining stuff, try to keep merging it
                    Some(remaining) => {
                        current = remaining;
                    },
                    // Otherwise, we're done
                    None => {
                        return None;
                    },
                }
            } else {
                assert(self@[i as int] == self.contents@[i as int].deep_view());
                assert(merge_from(self@, i as int, current@) == merge_from(self@, i + 1, current@));
            }
            i = i + 1;
        }
        // Otherwise, try to create a new stack
        let ghost merged = self@;
        assert(merge_from(before, 0, first) == SlotsOutcome { slots: merged, left: Some(current@) });
        let mut j: usize = 0;
        while j < self.contents.len()
            invariant
                j <= self.contents.len(),
                self@ == merged,
                merged.len() == before.len(),
                before == old(self)@,
                first == stack@,
                merge_from(before, 0, first) == (SlotsOutcome { slots: merged, left: Some(current@) }),
                self.spec_key() == old(self).spec_key(),
                self.spec_dimensions() == old(self).spec_dimensions(),
                forall|k: int| 0 <= k < j ==> (#[trigger] merged[k]) is Some,
            decreases self.contents.len() - j,
        {
            assert(self@[j as int] == self.contents@[j as int].deep_view());
            if self.contents[j].is_none() {
                let ghost placed = current@;
                self.contents[j] = Some(current);
                assert(self@ =~= merged.update(j as int, Some(placed)));
                assert(is_first_empty(merged, j as int));
                assert forall|k: int| is_first_empty(merged, k) implies k == j by {
                    if k < j {
                        assert(merged[k] is Some);
                    }
                    if j < k {
                        assert(merged[j as int] is None);
                    }
                }
                return None;
            }
            j = j + 1;
        }
        assert forall|k: int| !is_first_empty(merged, k) by {
            if 0 <= k < merged.len() {
                assert(merged[k] is Some);
            }
        }
        Some(current)
    }
}

/// A record with other slots, as many as it had, has the shape of an
/// inventory exactly if the record had: changing slots keeps the shape.
pub proof fn lemma_changed_record_keeps_its_shape(
    record: InventoryRecordView,
    slots: Seq<Option<ItemStackView>>,
)
    requires
        slots.len() == record.contents.len(),
    ensures
        record_is_inventory(record_with_slots(record, slots)) <==> record_is_inventory(record),
        record_with_slots(record, slots).height == record.height,
        record_with_slots(record, slots).width == record.width,
{
}

/// Whether every stack of the inventory has a name. A stack without one
/// cannot be told from an empty slot once it is written.
pub open spec fn all_named(slots: Seq<Option<ItemStackView>>) -> bool {
    forall|i: int|
        0 <= i < slots.len() ==> ((#[trigger] slots[i]) matches Some(stack)
            ==> stack.item_name.len() > 0)
}

/// The record of an inventory has the shape of one exactly if the inventory
/// is well formed.
pub proof fn lemma_record_is_well_formed(inventory: Inventory)
    ensures
        record_is_inventory(inventory.spec_to_proto()) <==> inventory.wf(),
{
    let (height, width) = inventory.spec_dimensions();
    assert(width * height == height * width) by (nonlinear_arith);
}

/// The record of an inventory has the shape of one exactly if the inventory
/// is well formed, and the inventory that the record stands for has the same
/// dimensions and, where all stacks have names, the same contents.
pub proof fn lemma_record_of_inventory(inventory: Inventory, read: Inventory)
    requires
        read.is_from_proto(inventory.spec_to_proto(), inventory.spec_key()),
    ensures
        record_is_inventory(inventory.spec_to_proto()) <==> inventory.wf(),
        read.spec_dimensions() == inventory.spec_dimensions(),
        read.spec_key() == inventory.spec_key(),
        read@.len() == inventory@.len(),
        all_named(inventory@) ==> read@ == inventory@,
{
    let (height, width) = inventory.spec_dimensions();
    assert(width * height == height * width) by (nonlinear_arith);
    if all_named(inventory@) {
        assert forall|i: int| 0 <= i < inventory@.len() implies read@[i] == inventory@[i] by {
            assert(inventory@[i] matches Some(stack) ==> stack.item_name.len() > 0);
        }
        assert(read@ =~= inventory@);
    }
}

/// The number of items in all slots together.
pub open spec fn total_quantity(slots: Seq<Option<ItemStackView>>) -> int
    decreases slots.len(),
{
    if slots.len() == 0 {
        0
    } else {
        total_quantity(slots.drop_last()) + slot_quantity(slots.last())
    }
}

/// Changing one slot changes the number of items by what the slot gains.
pub proof fn lemma_total_quantity_of_update(
    slots: Seq<Option<ItemStackView>>,
    i: int,
    slot: Option<ItemStackView>,
)
    requires
        0 <= i < slots.len(),
    ensures
        total_quantity(slots.update(i, slot)) == total_quantity(slots) - slot_quantity(slots[i])
            + slot_quantity(slot),
    decreases slots.len(),
{
    let changed = slots.update(i, slot);
    if i == slots.len() - 1 {
        assert(changed.drop_last() =~= slots.drop_last());
    } else {
        assert(changed.drop_last() =~= slots.drop_last().update(i, slot));
        lemma_total_quantity_of_update(slots.drop_last(), i, slot);
    }
}

/// Merging a stack into the filled slots neither makes nor loses items, and
/// keeps the number of slots.
pub proof fn lemma_merge_from_conserves_quantity(
    slots: Seq<Option<ItemStackView>>,
    from: int,
    stack: ItemStackView,
)
    ensures
        merge_from(slots, from, stack).slots.len() == slots.len(),
        total_quantity(merge_from(slots, from, stack).slots) + slot_quantity(
            merge_from(slots, from, stack).left,
        ) == total_quantity(slots) + stack.quantity,
    decreases slots.len() - from,
{
    if 0 <= from < slots.len() {
        match slots[from] {
            None => {
                lemma_merge_from_conserves_quantity(slots, from + 1, stack);
            },
            Some(held) => {
                let merged = slots.update(from, Some(held.merged(stack)));
                lemma_merge_conserves_quantity(Some(held), Some(stack));
                lemma_total_quantity_of_update(slots, from, Some(held.merged(stack)));
                match held.leftover(stack) {
                    None => {},
                    Some(rest) => {
                        lemma_merge_from_conserves_quantity(merged, from + 1, rest);
                    },
                }
            },
        }
    }
}

/// Inserting a stack neither makes nor loses items: the items of the
/// inventory and of the stack are those of the inventory afterwards and of
/// what is handed back. The number of slots stays.
pub proof fn lemma_insert_conserves_quantity(slots: Seq<Option<ItemStackView>>, stack: ItemStackView)
    ensures
        inserted(slots, stack).slots.len() == slots.len(),
        total_quantity(inserted(slots, stack).slots) + slot_quantity(inserted(slots, stack).left)
            == total_quantity(slots) + stack.quantity,
{
    lemma_merge_from_conserves_quantity(slots, 0, stack);
    let merged = merge_from(slots, 0, stack);
    if let Some(rest) = merged.left {
        if exists|i: int| is_first_empty(merged.slots, i) {
            let i = choose|i: int| is_first_empty(merged.slots, i);
            lemma_total_quantity_of_update(merged.slots, i, Some(rest));
        }
    }
}

/// Giving a stack back neither makes nor loses items, and keeps the number
/// of slots.
pub proof fn lemma_give_back_conserves_quantity(
    slots: Seq<Option<ItemStackView>>,
    slot: int,
    stack: ItemStackView,
)
    ensures
        given_back(slots, slot, stack).slots.len() == slots.len(),
        total_quantity(given_back(slots, slot, stack).slots) + slot_quantity(
            given_back(slots, slot, stack).left,
        ) == total_quantity(slots) + stack.quantity,
{
    if 0 <= slot < slots.len() {
        let at_origin = merge_slot(slots[slot], Some(stack));
        lemma_merge_conserves_quantity(slots[slot], Some(stack));
        lemma_total_quantity_of_update(slots, slot, at_origin.slot);
        match at_origin.out {
            None => {},
            Some(rest) => {
                lemma_insert_conserves_quantity(slots.update(slot, at_origin.slot), rest);
            },
        }
    } else {
        lemma_insert_conserves_quantity(slots, stack);
    }
}

/// The number of items of the kind `name` in all slots together.
pub open spec fn quantity_of(slots: Seq<Option<ItemStackView>>, name: Seq<char>) -> int
    decreases slots.len(),
{
    if slots.len() == 0 {
        0
    } else {
        quantity_of(slots.drop_last(), name) + slot_quantity_of(slots.last(), name)
    }
}

/// Changing one slot changes the number of items of a kind by what the slot
/// gains of it.
pub proof fn lemma_quantity_of_update(
    slots: Seq<Option<ItemStackView>>,
    i: int,
    slot: Option<ItemStackView>,
    name: Seq<char>,
)
    requires
        0 <= i < slots.len(),
    ensures
        quantity_of(slots.update(i, slot), name) == quantity_of(slots, name) - slot_quantity_of(
            slots[i],
            name,
        ) + slot_quantity_of(slot, name),
    decreases slots.len(),
{
    let changed = slots.update(i, slot);
    if i == slots.len() - 1 {
        assert(changed.drop_last() =~= slots.drop_last());
    } else {
        assert(changed.drop_last() =~= slots.drop_last().update(i, slot));
        lemma_quantity_of_update(slots.drop_last(), i, slot, name);
    }
}

/// Merging a stack into the filled slots neither makes nor loses items of
/// any kind, and fills no empty slot.
pub proof fn lemma_merge_from_conserves_each_kind(
    slots: Seq<Option<ItemStackView>>,
    from: int,
    stack: ItemStackView,
    name: Seq<char>,
)
    ensures
        merge_from(slots, from, stack).slots.len() == slots.len(),
        forall|i: int|
            0 <= i < slots.len() ==> ((#[trigger] merge_from(slots, from, stack).slots[i]) is None
                <==> slots[i] is None),
        quantity_of(merge_from(slots, from, stack).slots, name) + slot_quantity_of(
            merge_from(slots, from, stack).left,
            name,
        ) == quantity_of(slots, name) + slot_quantity_of(Some(stack), name),
    decreases slots.len() - from,
{
    if 0 <= from < slots.len() {
        match slots[from] {
            None => {
                lemma_merge_from_conserves_each_kind(slots, from + 1, stack, name);
            },
            Some(held) => {
                let merged = slots.update(from, Some(held.merged(stack)));
                lemma_merge_conserves_each_kind(Some(held), Some(stack), name);
                lemma_quantity_of_update(slots, from, Some(held.merged(stack)), name);
                match held.leftover(stack) {
                    None => {},
                    Some(rest) => {
                        lemma_merge_from_conserves_each_kind(merged, from + 1, rest, name);
                    },
                }
            },
        }
    }
}

/// Where a slot is empty, one of the empty slots is the first.
pub proof fn lemma_first_empty_exists(slots: Seq<Option<ItemStackView>>, empty: int)
    requires
        0 <= empty < slots.len(),
        slots[empty] is None,
    ensures
        exists|i: int| is_first_empty(slots, i),
    decreases empty,
{
    if exists|j: int| 0 <= j < empty && (#[trigger] slots[j]) is None {
        let j = choose|j: int| 0 <= j < empty && (#[trigger] slots[j]) is None;
        lemma_first_empty_exists(slots, j);
    } else {
        assert(is_first_empty(slots, empty));
    }
}

/// Inserting a stack neither makes nor loses items of any kind, and nothing
/// is handed back where a slot is empty.
pub proof fn lemma_insert_conserves_each_kind(
    slots: Seq<Option<ItemStackView>>,
    stack: ItemStackView,
    name: Seq<char>,
)
    ensures
        quantity_of(inserted(slots, stack).slots, name) + slot_quantity_of(
            inserted(slots, stack).left,
            name,
        ) == quantity_of(slots, name) + slot_quantity_of(Some(stack), name),
        (exists|i: int| 0 <= i < slots.len() && (#[trigger] slots[i]) is None) ==> inserted(
            slots,
            stack,
        ).left is None,
{
    lemma_merge_from_conserves_each_kind(slots, 0, stack, name);
    let merged = merge_from(slots, 0, stack);
    if let Some(rest) = merged.left {
        if exists|i: int| 0 <= i < slots.len() && (#[trigger] slots[i]) is None {
            let empty = choose|i: int| 0 <= i < slots.len() && (#[trigger] slots[i]) is None;
            assert(merged.slots[empty] is None);
            lemma_first_empty_exists(merged.slots, empty);
        }
        if exists|i: int| is_first_empty(merged.slots, i) {
            let i = choose|i: int| is_first_empty(merged.slots, i);
            lemma_quantity_of_update(merged.slots, i, Some(rest), name);
        }
    }
}

/// Giving a stack back neither makes nor loses items of any kind. All of it
/// is taken where the slot that it is given back to has room for it, or
/// where another slot is empty.
pub proof fn lemma_give_back_conserves_each_kind(
    slots: Seq<Option<ItemStackView>>,
    slot: int,
    stack: ItemStackView,
    name: Seq<char>,
)
    ensures
        quantity_of(given_back(slots, slot, stack).slots, name) + slot_quantity_of(
            given_back(slots, slot, stack).left,
            name,
        ) == quantity_of(slots, name) + slot_quantity_of(Some(stack), name),
        0 <= slot < slots.len() && fits_slot(slots[slot], Some(stack)) ==> given_back(
            slots,
            slot,
            stack,
        ).left is None,
        (exists|i: int| 0 <= i < slots.len() && i != slot && (#[trigger] slots[i]) is None)
            ==> given_back(slots, slot, stack).left is None,
{
    if 0 <= slot < slots.len() {
        let at_origin = merge_slot(slots[slot], Some(stack));
        lemma_merge_conserves_each_kind(slots[slot], Some(stack), name);
        lemma_quantity_of_update(slots, slot, at_origin.slot, name);
        match at_origin.out {
            None => {},
            Some(rest) => {
                let changed = slots.update(slot, at_origin.slot);
                lemma_insert_conserves_each_kind(changed, rest, name);
                if exists|i: int| 0 <= i < slots.len() && i != slot && (#[trigger] slots[i]) is None {
                    let i = choose|i: int|
                        0 <= i < slots.len() && i != slot && (#[trigger] slots[i]) is None;
                    assert(changed[i] is None);
                }
            },
        }
    } else {
        lemma_insert_conserves_each_kind(slots, stack, name);
    }
}

/// An inventory that is written and read again holds of every kind that has
/// a name what it held.
pub proof fn lemma_written_slots_keep_each_kind(slots: Seq<Option<ItemStackView>>, name: Seq<char>)
    requires
        name.len() > 0,
    ensures
        slots_of_records(records_of_slots(slots)).len() == slots.len(),
        quantity_of(slots_of_records(records_of_slots(slots)), name) == quantity_of(slots, name),
    decreases slots.len(),
{
    let read = slots_of_records(records_of_slots(slots));
    if slots.len() > 0 {
        assert(read.drop_last() =~= slots_of_records(records_of_slots(slots.drop_last())));
        lemma_written_slots_keep_each_kind(slots.drop_last(), name);
    }
}

} // verus!
