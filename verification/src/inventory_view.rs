//! Views onto inventories, meant for user interaction.
//!
//! A view offers three operations (looking at the items, taking a stack out
//! of a slot, putting a stack into a slot) whatever stands behind it: an
//! inventory in the store, or stacks that the view holds itself and that were
//! borrowed from inventories.

use crate::database::GameDatabase;
use crate::game_state::GameState;
use crate::inventory::{
    given_back, lemma_changed_record_keeps_its_shape, lemma_give_back_conserves_each_kind,
    lemma_give_back_conserves_quantity, lemma_written_slots_keep_each_kind, quantity_of,
    record_with_slots, slots_of_records, Inventory, InventoryError, InventoryKey,
};
use crate::inventory_manager::{
    lemma_written_record_is_stored, stored_inventory, InventoryManager, StoredInventory,
};
use crate::items::{
    fits_slot, merge_slot, slot_quantity_of, take_from_slot, ItemStack, MaybeStack, SlotOutcome,
};
use crate::protocol::{InventoryRecordView, ItemStackView};
use vstd::prelude::*;

verus! {

/// ID for an inventory view.
#[derive(Clone, Copy, PartialEq, Eq, Structural, PartialOrd, Ord, Hash, Debug)]
pub struct InventoryViewId(pub u64);

/// Hands out the next ID for an inventory view and advances the counter.
/// IDs increase from one view to the next (the counter starts over only
/// after all 64-bit numbers were handed out).
pub fn next_id(counter: &mut u64) -> (id: InventoryViewId)
    ensures
        id.0 == *old(counter),
        *final(counter) == (if *old(counter) == u64::MAX {
            0
        } else {
            *old(counter) + 1
        }),
{
    let id = InventoryViewId(*counter);
    *counter = counter.wrapping_add(1);
    id
}

/// What a [`BorrowedStack`] holds, as mathematical values.
pub struct BorrowedStackView {
    pub borrows_from: Option<(InventoryKey, usize)>,
    pub borrowed_stack: ItemStackView,
}

/// A stack of items that came from some real inventory, and is now in a transient inventory
/// (or being held by the user's cursor).
///
/// This is not the same as a "borrow" in the sense of Rust references and lifetimes.
#[derive(Debug)]
pub struct BorrowedStack {
    /// The location (inventory key, offset) that this stack is borrowing from
    borrows_from: Option<(InventoryKey, usize)>,
    /// The stack that is borrowed from the location indicated.
    borrowed_stack: ItemStack,
}

impl View for BorrowedStack {
    type V = BorrowedStackView;

    closed spec fn view(&self) -> BorrowedStackView {
        BorrowedStackView {
            borrows_from: self.borrows_from,
            borrowed_stack: self.borrowed_stack@,
        }
    }
}

impl DeepView for BorrowedStack {
    type V = BorrowedStackView;

    open spec fn deep_view(&self) -> BorrowedStackView {
        self@
    }
}

impl Clone for BorrowedStack {
    fn clone(&self) -> (copy: Self)
        ensures
            copy@ == self@,
    {
        BorrowedStack {
            borrows_from: self.borrows_from,
            borrowed_stack: self.borrowed_stack.clone(),
        }
    }
}

impl BorrowedStack {
    /// A stack that was taken from the given place, or from nowhere.
    pub fn new(borrowed_stack: ItemStack, borrows_from: Option<(InventoryKey, usize)>) -> (borrowed:
        BorrowedStack)
        ensures
            borrowed@ == (BorrowedStackView { borrows_from, borrowed_stack: borrowed_stack@ }),
    {
        BorrowedStack { borrows_from, borrowed_stack }
    }

    /// The location (inventory key, offset) that this stack is borrowing from.
    pub fn borrows_from(&self) -> (origin: Option<(InventoryKey, usize)>)
        ensures
            origin == self@.borrows_from,
    {
        self.borrows_from
    }

    /// The stack that is borrowed.
    pub fn borrowed_stack(&self) -> (stack: &ItemStack)
        ensures
            stack@ == self@.borrowed_stack,
    {
        &self.borrowed_stack
    }

    /// The stack that is borrowed, without where it came from.
    pub fn into_stack(self) -> (stack: ItemStack)
        ensures
            stack@ == self@.borrowed_stack,
    {
        self.borrowed_stack
    }
}

/// The stack with the place that it is borrowed from.
pub open spec fn with_origin(
    stack: Option<ItemStackView>,
    borrows_from: Option<(InventoryKey, usize)>,
) -> Option<BorrowedStackView> {
    match stack {
        Some(borrowed_stack) => Some(BorrowedStackView { borrows_from, borrowed_stack }),
        None => None,
    }
}

/// The stack without the place that it is borrowed from.
pub open spec fn stack_of(borrowed: Option<BorrowedStackView>) -> Option<ItemStackView> {
    match borrowed {
        Some(b) => Some(b.borrowed_stack),
        None => None,
    }
}

/// The stacks without the places that they are borrowed from.
pub open spec fn stacks_of(borrowed: Seq<Option<BorrowedStackView>>) -> Seq<Option<ItemStackView>> {
    borrowed.map_values(|b: Option<BorrowedStackView>| stack_of(b))
}

/// Where the items in the inventory view actually come from.
///
/// The type parameter T is the type of the callbacks of the virtual kinds.
pub enum ViewBacking<T> {
    /// The inventory view represents an inventory that isn't stored anywhere, but
    /// represents real items that can be moved around.
    /// (e.g. a grid into which recipe ingredients can be placed, a trading interface, etc)
    ///
    /// If this view is deleted, the items within it are returned to the place they were borrowed
    /// from, or alternatively into a stack with space or open slot in the inventory they came from.
    /// Any items with an empty borrows_from don't have a place to return them (they may have come from
    /// a callback of a virtual view)
    Transient(Vec<Option<BorrowedStack>>),
    /// This inventory view is generated on-the-fly and does not represent real items
    /// e.g. the output of a recipe grid.
    ///
    /// Once an item is taken from the view, it becomes real, and must be placed somewhere.
    ///
    /// Nothing interesting happens when this view is deleted, because any inventory changes
    /// through this view have already been performed on other views through the callbacks by then.
    VirtualOutput(T),
    /// This inventory view doesn't hold anything. When a stack is placed into it, it is consumed from
    /// its source and a callback will be invoked.
    ///
    /// Nothing interesting happens when this view is deleted, because this view doesn't "hold" any items.
    VirtualInput(T),
    /// This inventory view is stored in the database. Nothing interesting happens when the view
    /// is deleted, because any actions on the view have been written back to the database by then.
    Stored(InventoryKey),
}

/// A change to one slot.
pub enum SlotChange {
    /// Taking up to that many items out of the slot, or all of them.
    Take(Option<u32>),
    /// Merging a stack into the slot.
    Put(ItemStackView),
}

/// The slot after the change, and what the change hands back.
pub open spec fn changed_slot(slot: Option<ItemStackView>, change: SlotChange) -> SlotOutcome {
    match change {
        SlotChange::Take(count) => take_from_slot(slot, count),
        SlotChange::Put(stack) => merge_slot(slot, Some(stack)),
    }
}

/// Whether `after` and `result` are what changing one slot of the inventory
/// under `key` leaves of `before`: the inventory is read, one slot is
/// changed, and the inventory is written back and published. Nothing is
/// written where the inventory cannot be read or has no such slot. With a
/// store that may fail, the change may fail too, and nothing is touched
/// unless the store failed.
pub open spec fn stored_slot_changed<D: GameDatabase>(
    before: &InventoryManager<D>,
    after: &InventoryManager<D>,
    key: InventoryKey,
    slot: int,
    change: SlotChange,
    result: Result<Option<ItemStackView>, InventoryError>,
) -> bool {
    &&& after.follows(before)
    &&& after.published() == (if result is Ok {
        before.published().push(key)
    } else {
        before.published()
    })
    &&& result matches Err(e) ==> e == InventoryError::NotFound || e == InventoryError::Corruption
        || e == InventoryError::Store || e == InventoryError::Range
    &&& (result matches Err(e) && e != InventoryError::Store) ==> after.unchanged_since(before)
    &&& before.reliable() ==> match stored_inventory(before.stored(), key) {
        StoredInventory::Absent => after.stored() == before.stored() && (result matches Err(e)
            && e == InventoryError::NotFound),
        StoredInventory::Corrupt => after.stored() == before.stored() && (result matches Err(e)
            && e == InventoryError::Corruption),
        StoredInventory::Record(record) => {
            let slots = slots_of_records(record.contents);
            if 0 <= slot < slots.len() {
                &&& result == Ok::<Option<ItemStackView>, InventoryError>(
                    changed_slot(slots[slot], change).out,
                )
                &&& after.stored() == before.stored().insert(
                    key.spec_db_key(),
                    record_with_slots(
                        record,
                        slots.update(slot, changed_slot(slots[slot], change).slot),
                    ).encoding(),
                )
            } else {
                &&& after.stored() == before.stored()
                &&& result matches Err(e) && e == InventoryError::Range
            }
        },
    }
}

/// A change to one slot, with the stack that is put.
enum SlotAction {
    Take(Option<u32>),
    Put(ItemStack),
}

impl View for SlotAction {
    type V = SlotChange;

    closed spec fn view(&self) -> SlotChange {
        match self {
            SlotAction::Take(count) => SlotChange::Take(*count),
            SlotAction::Put(stack) => SlotChange::Put(stack@),
        }
    }
}

/// The stacks of an outcome, without the places that they are borrowed from.
pub open spec fn stack_result(result: Result<Option<BorrowedStack>, InventoryError>) -> Result<
    Option<ItemStackView>,
    InventoryError,
> {
    match result {
        Ok(borrowed) => Ok(stack_of(borrowed.deep_view())),
        Err(e) => Err(e),
    }
}

/// Changes one slot of the inventory under `key`.
fn change_stored_slot<D: GameDatabase>(
    manager: &mut InventoryManager<D>,
    key: InventoryKey,
    slot: usize,
    action: SlotAction,
) -> (result: Result<Option<ItemStack>, InventoryError>)
    ensures
        stored_slot_changed(
            old(manager),
            final(manager),
            key,
            slot as int,
            action@,
            match result {
                Ok(stack) => Ok(stack.deep_view()),
                Err(e) => Err(e),
            },
        ),
{
    let ghost change = action@;
    let result = manager.mutate_inventory_atomically(
        &key,
        |inv: &mut Inventory| -> (outcome: Result<Option<ItemStack>, InventoryError>)
            ensures
                final(inv).spec_key() == old(inv).spec_key(),
                final(inv).spec_dimensions() == old(inv).spec_dimensions(),
                if slot + 1 <= old(inv)@.len() {
                    &&& outcome matches Ok(stack) && stack.deep_view() == changed_slot(
                        old(inv)@[slot as int],
                        change,
                    ).out
                    &&& final(inv)@ == old(inv)@.update(
                        slot as int,
                        changed_slot(old(inv)@[slot as int], change).slot,
                    )
                } else {
                    &&& final(inv)@ == old(inv)@
                    &&& outcome matches Err(e) && e == InventoryError::Range
                },
            {
                if slot < inv.len() {
                    match action {
                        SlotAction::Take(count) => Ok(inv.contents_mut(slot).take_items(count)),
                        SlotAction::Put(stack) => Ok(inv.contents_mut(slot).try_merge(Some(stack))),
                    }
                } else {
                    Err(InventoryError::Range)
                }
            }
    );
    proof {
        match stored_inventory(old(manager).stored(), key) {
            StoredInventory::Record(record) => {
                let slots = slots_of_records(record.contents);
                if old(manager).reliable() && 0 <= slot < slots.len() {
                    let changed = slots.update(
                        slot as int,
                        changed_slot(slots[slot as int], change).slot,
                    );
                    assert forall|inventory: Inventory|
                        inventory@ == changed && inventory.spec_dimensions() == (
                            record.height,
                            record.width,
                        ) implies #[trigger] inventory.spec_to_proto() == record_with_slots(
                        record,
                        changed,
                    ) by {}
                }
            },
            _ => {},
        }
    }
    result
}

/// Whether `after` and `kept` are what giving a borrowed stack back leaves
/// of `before`. A stack that is borrowed from a slot of an inventory is given
/// back to that inventory, which is written back and published; what fits
/// nowhere in it is kept. A stack that is borrowed from nowhere, or from an
/// inventory that cannot be read, is kept whole, and nothing is written.
pub open spec fn stack_given_back<D: GameDatabase>(
    before: &InventoryManager<D>,
    after: &InventoryManager<D>,
    stack: BorrowedStackView,
    kept: Option<BorrowedStackView>,
) -> bool {
    &&& after.follows(before)
    &&& stack.borrows_from matches Some((key, slot)) ==> {
        // Whatever the store is: the stack is kept whole and nothing is
        // published, or the inventory is published and what is kept is
        // borrowed from where the stack was.
        ||| after.published() == before.published() && kept == Some(stack)
        ||| after.published() == before.published().push(key) && (kept matches Some(rest)
            ==> rest.borrows_from == stack.borrows_from)
    }
    &&& match stack.borrows_from {
        None => after.unchanged_since(before) && kept == Some(stack),
        Some((key, slot)) => before.reliable() ==> match stored_inventory(before.stored(), key) {
            StoredInventory::Record(record) => {
                &&& after.stored() == before.stored().insert(
                    key.spec_db_key(),
                    record_with_slots(
                        record,
                        given_back(
                            slots_of_records(record.contents),
                            slot as int,
                            stack.borrowed_stack,
                        ).slots,
                    ).encoding(),
                )
                &&& after.published() == before.published().push(key)
                &&& kept == with_origin(
                    given_back(
                        slots_of_records(record.contents),
                        slot as int,
                        stack.borrowed_stack,
                    ).left,
                    stack.borrows_from,
                )
            },
            _ => after.unchanged_since(before) && kept == Some(stack),
        },
    }
}

/// Gives a borrowed stack back to the inventory that it is borrowed from,
/// and returns what could not be given back.
pub fn return_to_origin<D: GameDatabase>(manager: &mut InventoryManager<D>, stack: BorrowedStack) -> (kept:
    Option<BorrowedStack>)
    ensures
        stack_given_back(old(manager), final(manager), stack@, kept.deep_view()),
{
    let (key, slot) = match stack.borrows_from {
        Some(origin) => origin,
        None => {
            return Some(stack);
        },
    };
    // Kept in case the inventory cannot be read or written.
    let spare = stack.clone();
    let ghost returning = stack@.borrowed_stack;
    let result = manager.mutate_inventory_atomically(
        &key,
        |inv: &mut Inventory| -> (outcome: Result<Option<ItemStack>, InventoryError>)
            ensures
                final(inv).spec_key() == old(inv).spec_key(),
                final(inv).spec_dimensions() == old(inv).spec_dimensions(),
                final(inv)@ == given_back(old(inv)@, slot as int, returning).slots,
                final(inv)@.len() == old(inv)@.len(),
                outcome matches Ok(left) && left.deep_view() == given_back(
                    old(inv)@,
                    slot as int,
                    returning,
                ).left,
            { Ok(inv.give_back(slot, stack.borrowed_stack)) }
    );
    proof {
        match stored_inventory(old(manager).stored(), key) {
            StoredInventory::Record(record) => {
                let slots = slots_of_records(record.contents);
                let changed = given_back(slots, slot as int, returning).slots;
                assert forall|inventory: Inventory|
                    inventory@ == changed && inventory.spec_dimensions() == (
                        record.height,
                        record.width,
                    ) implies #[trigger] inventory.spec_to_proto() == record_with_slots(
                    record,
                    changed,
                ) by {}
            },
            _ => {},
        }
    }
    match result {
        Ok(Some(rest)) => Some(BorrowedStack { borrows_from: Some((key, slot)), borrowed_stack: rest }),
        Ok(None) => None,
        Err(_) => Some(spare),
    }
}

/// What giving borrowed stacks back has come to: what the store holds, what
/// was published, and the stacks that could not be given back.
pub struct GivenBack {
    pub stored: Map<Seq<u8>, Seq<u8>>,
    pub published: Seq<InventoryKey>,
    pub kept: Seq<BorrowedStackView>,
}

/// Giving the stack of one slot back, with a store that does not fail.
pub open spec fn give_back_one(state: GivenBack, held: Option<BorrowedStackView>) -> GivenBack {
    match held {
        None => state,
        Some(stack) => match stack.borrows_from {
            None => GivenBack { kept: state.kept.push(stack), ..state },
            Some((key, slot)) => match stored_inventory(state.stored, key) {
                StoredInventory::Record(record) => GivenBack {
                    stored: state.stored.insert(
                        key.spec_db_key(),
                        record_with_slots(
                            record,
                            given_back(
                                slots_of_records(record.contents),
                                slot as int,
                                stack.borrowed_stack,
                            ).slots,
                        ).encoding(),
                    ),
                    published: state.published.push(key),
                    kept: match given_back(
                        slots_of_records(record.contents),
                        slot as int,
                        stack.borrowed_stack,
                    ).left {
                        Some(rest) => state.kept.push(
                            BorrowedStackView {
                                borrows_from: stack.borrows_from,
                                borrowed_stack: rest,
                            },
                        ),
                        None => state.kept,
                    },
                },
                _ => GivenBack { kept: state.kept.push(stack), ..state },
            },
        },
    }
}

/// Giving the stacks of the first `n` slots back, in order, with a store
/// that does not fail.
pub open spec fn give_back_first(
    state: GivenBack,
    slots: Seq<Option<BorrowedStackView>>,
    n: int,
) -> GivenBack
    decreases n,
{
    if n <= 0 || n > slots.len() {
        state
    } else {
        give_back_one(give_back_first(state, slots, n - 1), slots[n - 1])
    }
}

/// Giving back the stacks of slots of which one alone is filled is giving
/// back the stack of that slot.
pub proof fn lemma_give_back_of_single_stack(
    state: GivenBack,
    slots: Seq<Option<BorrowedStackView>>,
    filled: int,
    n: int,
)
    requires
        0 <= filled < slots.len(),
        0 <= n <= slots.len(),
        forall|i: int| 0 <= i < slots.len() && i != filled ==> (#[trigger] slots[i]) is None,
    ensures
        give_back_first(state, slots, n) == (if filled < n {
            give_back_one(state, slots[filled])
        } else {
            state
        }),
    decreases n,
{
    if n > 0 {
        lemma_give_back_of_single_stack(state, slots, filled, n - 1);
    }
}

/// A stack that is given back to the inventory that it is borrowed from
/// arrives there. The inventory is stored with the dimensions and the number
/// of slots that it had. Of the kind of item of the stack it then holds what
/// it held and what was given back, but for what could not be taken; of every
/// other kind it holds what it held. Nothing is kept where the slot that the
/// stack is borrowed from has room for it, or where another slot is empty.
///
/// This is said of the kinds that have a name, since a stack without one is
/// written as an empty slot, and of an inventory whose record can be
/// written, as that of every inventory in memory can.
pub proof fn lemma_given_back_stack_arrives(
    state: GivenBack,
    stack: BorrowedStackView,
    key: InventoryKey,
    slot: usize,
    record: InventoryRecordView,
    name: Seq<char>,
)
    requires
        stack.borrows_from == Some((key, slot)),
        stored_inventory(state.stored, key) == StoredInventory::Record(record),
        name.len() > 0,
        record_with_slots(
            record,
            given_back(slots_of_records(record.contents), slot as int, stack.borrowed_stack).slots,
        ).encodable(),
    ensures
        ({
            let held = slots_of_records(record.contents);
            let outcome = given_back(held, slot as int, stack.borrowed_stack);
            let after = give_back_one(state, Some(stack));
            &&& stored_inventory(after.stored, key) matches StoredInventory::Record(written) && {
                &&& written.height == record.height
                &&& written.width == record.width
                &&& written.contents.len() == record.contents.len()
                &&& quantity_of(slots_of_records(written.contents), name) + slot_quantity_of(
                    outcome.left,
                    name,
                ) == quantity_of(held, name) + slot_quantity_of(Some(stack.borrowed_stack), name)
            }
            &&& after.published == state.published.push(key)
            &&& outcome.left is None ==> after.kept == state.kept
            &&& slot < held.len() && fits_slot(held[slot as int], Some(stack.borrowed_stack))
                ==> outcome.left is None
            &&& (exists|i: int| 0 <= i < held.len() && i != slot && (#[trigger] held[i]) is None)
                ==> outcome.left is None
        }),
{
    let held = slots_of_records(record.contents);
    let outcome = given_back(held, slot as int, stack.borrowed_stack);
    let written = record_with_slots(record, outcome.slots);
    lemma_give_back_conserves_quantity(held, slot as int, stack.borrowed_stack);
    lemma_give_back_conserves_each_kind(held, slot as int, stack.borrowed_stack, name);
    lemma_changed_record_keeps_its_shape(record, outcome.slots);
    lemma_written_record_is_stored(state.stored, key, written);
    lemma_written_slots_keep_each_kind(outcome.slots, name);
}

/// A view into an inventory, meant for user interaction.
///
/// An inventory view has the following operations: Picking up a stack (or subset) from a slot,
/// placing a stack into a slot, rendering the inventory view, and deleting the view.
///
/// An inventory view can be transient, virtual, or backed by a real inventory from the database.
/// See [ViewBacking] for more details.
///
/// A view is active from its creation until it is cleared, and cleared for good.
pub struct InventoryView<T> {
    /// (rows, cols)
    dimensions: (u32, u32),
    /// Whether the user can put things into this view
    can_place: bool,
    /// Whether the user can take things out of this view
    can_take: bool,
    /// The kind of inventory this view is showing
    backing: ViewBacking<T>,
    id: InventoryViewId,
    /// Whether the view was cleared
    cleared: bool,
}

/// A slot of a transient view after an operation, and what the operation hands back.
pub struct BorrowOutcome {
    pub slot: Option<BorrowedStackView>,
    pub out: Option<BorrowedStackView>,
}

/// Taking items out of a slot of a transient view: what is taken and what
/// stays are both borrowed from where the stack in the slot was.
pub open spec fn transient_take(held: Option<BorrowedStackView>, count: Option<u32>) -> BorrowOutcome {
    match held {
        None => BorrowOutcome { slot: None, out: None },
        Some(b) => BorrowOutcome {
            slot: with_origin(
                take_from_slot(Some(b.borrowed_stack), count).slot,
                b.borrows_from,
            ),
            out: with_origin(take_from_slot(Some(b.borrowed_stack), count).out, b.borrows_from),
        },
    }
}

/// Putting a stack into a slot of a transient view: a stack in the slot stays
/// borrowed from where it was, an empty slot takes over where the stack
/// that is put is borrowed from, and so does what is left over.
pub open spec fn transient_put(held: Option<BorrowedStackView>, put: BorrowedStackView) -> BorrowOutcome {
    BorrowOutcome {
        slot: with_origin(
            merge_slot(stack_of(held), Some(put.borrowed_stack)).slot,
            match held {
                Some(b) => b.borrows_from,
                None => put.borrows_from,
            },
        ),
        out: with_origin(
            merge_slot(stack_of(held), Some(put.borrowed_stack)).out,
            put.borrows_from,
        ),
    }
}

impl<T> InventoryView<T> {
    /// The dimensions of the view: rows, then columns.
    pub closed spec fn spec_dimensions(&self) -> (u32, u32) {
        self.dimensions
    }

    /// Whether the user can put things into this view.
    pub closed spec fn spec_can_place(&self) -> bool {
        self.can_place
    }

    /// Whether the user can take things out of this view.
    pub closed spec fn spec_can_take(&self) -> bool {
        self.can_take
    }

    /// The ID of the view.
    pub closed spec fn spec_id(&self) -> InventoryViewId {
        self.id
    }

    /// Whether the view was cleared. A cleared view stays cleared.
    pub closed spec fn is_cleared(&self) -> bool {
        self.cleared
    }

    /// The kind of inventory this view is showing.
    pub closed spec fn spec_backing(&self) -> ViewBacking<T> {
        self.backing
    }

    /// The stacks that a transient view holds; None for the other kinds of view.
    pub open spec fn transient(&self) -> Option<Seq<Option<BorrowedStackView>>> {
        match self.spec_backing() {
            ViewBacking::Transient(contents) => Some(contents.deep_view()),
            _ => None,
        }
    }

    /// The key of the inventory that a stored view shows; None for the other
    /// kinds of view.
    pub open spec fn stored_key(&self) -> Option<InventoryKey> {
        match self.spec_backing() {
            ViewBacking::Stored(key) => Some(key),
            _ => None,
        }
    }

    /// The number of slots of the view.
    pub open spec fn slot_count(&self) -> int {
        self.spec_dimensions().0 * self.spec_dimensions().1
    }

    /// The invariant of a view: a transient view holds as many slots as its
    /// dimensions say, and holds nothing once it was cleared.
    pub open spec fn wf(&self) -> bool {
        self.transient() matches Some(slots) ==> slots.len() == self.slot_count() && (
        self.is_cleared() ==> slots == Seq::new(slots.len(), |i: int| None::<BorrowedStackView>))
    }

    /// Whether this is the view `before`, but for the stacks that it holds
    /// and for whether it was cleared.
    pub open spec fn same_view_as(&self, before: &Self) -> bool {
        &&& self.spec_dimensions() == before.spec_dimensions()
        &&& self.spec_can_place() == before.spec_can_place()
        &&& self.spec_can_take() == before.spec_can_take()
        &&& self.spec_id() == before.spec_id()
        &&& self.stored_key() == before.stored_key()
        &&& self.transient() is Some <==> before.transient() is Some
        &&& self.transient() is None ==> self.spec_backing() == before.spec_backing()
    }

    /// (rows, cols)
    pub fn dimensions(&self) -> (dimensions: (u32, u32))
        ensures
            dimensions == self.spec_dimensions(),
    {
        self.dimensions
    }

    /// Whether the user can put things into this view
    pub fn can_place(&self) -> (can_place: bool)
        ensures
            can_place == self.spec_can_place(),
    {
        self.can_place
    }

    /// Whether the user can take things out of this view
    pub fn can_take(&self) -> (can_take: bool)
        ensures
            can_take == self.spec_can_take(),
    {
        self.can_take
    }

    /// The ID of the view.
    pub fn id(&self) -> (id: InventoryViewId)
        ensures
            id == self.spec_id(),
    {
        self.id
    }

    /// The kind of inventory this view is showing
    pub fn backing(&self) -> (backing: &ViewBacking<T>)
        ensures
            *backing == self.spec_backing(),
    {
        &self.backing
    }

    /// Creates a view of the inventory that is stored under `inventory_key`.
    /// This view is inert until added to a UI.
    pub fn new_stored<D: GameDatabase>(
        inventory_key: InventoryKey,
        game_state: &mut GameState<D>,
        can_place: bool,
        can_take: bool,
    ) -> (result: Result<InventoryView<T>, InventoryError>)
        ensures
            *final(game_state).inventory_manager() == *old(game_state).inventory_manager(),
            final(game_state).tick() == old(game_state).tick(),
            match result {
                Ok(view) => {
                    &&& view.spec_backing() == ViewBacking::<T>::Stored(inventory_key)
                    &&& view.spec_can_place() == can_place
                    &&& view.spec_can_take() == can_take
                    &&& !view.is_cleared()
                    &&& view.wf()
                    &&& view.spec_id().0 == old(game_state).spec_view_counter()
                    &&& final(game_state).spec_view_counter() == (if old(
                        game_state,
                    ).spec_view_counter() == u64::MAX {
                        0
                    } else {
                        old(game_state).spec_view_counter() + 1
                    })
                },
                Err(e) => {
                    &&& final(game_state).spec_view_counter() == old(
                        game_state,
                    ).spec_view_counter()
                    &&& e == InventoryError::NotFound || e == InventoryError::Corruption || e
                        == InventoryError::Store
                },
            },
            old(game_state).inventory_manager().reliable() ==> match stored_inventory(
                old(game_state).inventory_manager().stored(),
                inventory_key,
            ) {
                StoredInventory::Record(record) => result matches Ok(view)
                    && view.spec_dimensions() == (record.height, record.width),
                StoredInventory::Absent => result matches Err(e) && e == InventoryError::NotFound,
                StoredInventory::Corrupt => result matches Err(e) && e
                    == InventoryError::Corruption,
            },
    {
        let inventory = match game_state.inventory_manager().get(&inventory_key) {
            Ok(Some(inventory)) => inventory,
            Ok(None) => {
                return Err(InventoryError::NotFound);
            },
            Err(e) => {
                return Err(e);
            },
        };
        Ok(
            InventoryView {
                dimensions: inventory.dimensions(),
                can_place,
                can_take,
                backing: ViewBacking::Stored(inventory_key),
                id: game_state.next_view_id(),
                cleared: false,
            },
        )
    }

    /// Creates a new transient view. This view is inert until added to a UI.
    ///
    /// initial_contents must either have length equal to dimensions.0 * dimensions.1, or be zero length
    pub fn new_transient<D: GameDatabase>(
        game_state: &mut GameState<D>,
        dimensions: (u32, u32),
        initial_contents: Vec<Option<BorrowedStack>>,
        can_place: bool,
        can_take: bool,
    ) -> (result: Result<InventoryView<T>, InventoryError>)
        ensures
            *final(game_state).inventory_manager() == *old(game_state).inventory_manager(),
            final(game_state).tick() == old(game_state).tick(),
            result is Ok <==> initial_contents@.len() == 0 || initial_contents@.len()
                == dimensions.0 * dimensions.1,
            match result {
                Ok(view) => {
                    &&& view.spec_dimensions() == dimensions
                    &&& view.transient() == Some(
                        if initial_contents@.len() == 0 {
                            Seq::new(
                                (dimensions.0 * dimensions.1) as nat,
                                |i: int| None::<BorrowedStackView>,
                            )
                        } else {
                            initial_contents.deep_view()
                        },
                    )
                    &&& view.spec_can_place() == can_place
                    &&& view.spec_can_take() == can_take
                    &&& !view.is_cleared()
                    &&& view.wf()
                    &&& view.spec_id().0 == old(game_state).spec_view_counter()
                    &&& final(game_state).spec_view_counter() == (if old(
                        game_state,
                    ).spec_view_counter() == u64::MAX {
                        0
                    } else {
                        old(game_state).spec_view_counter() + 1
                    })
                },
                Err(e) => e == InventoryError::Dimension && final(game_state).spec_view_counter()
                    == old(game_state).spec_view_counter(),
            },
    {
        let mut initial_contents = initial_contents;
        let rows: u64 = dimensions.0 as u64;
        let cols: u64 = dimensions.1 as u64;
        assert(rows * cols <= u64::MAX) by (nonlinear_arith)
            requires
                rows <= u32::MAX,
                cols <= u32::MAX,
        ;
        let count: u64 = rows * cols;
        if initial_contents.len() == 0 {
            while (initial_contents.len() as u64) < count
                invariant
                    initial_contents@.len() <= count,
                    forall|i: int|
                        0 <= i < initial_contents@.len() ==> (#[trigger] initial_contents@[i])
                            is None,
                decreases count - initial_contents@.len(),
            {
                initial_contents.push(None);
            }
            assert(initial_contents.deep_view() =~= Seq::new(
                (dimensions.0 * dimensions.1) as nat,
                |i: int| None::<BorrowedStackView>,
            ));
        }
        if count != initial_contents.len() as u64 {
            return Err(InventoryError::Dimension);
        }
        Ok(
            InventoryView {
                dimensions,
                can_place,
                can_take,
                backing: ViewBacking::Transient(initial_contents),
                id: game_state.next_view_id(),
                cleared: false,
            },
        )
    }

    /// Returns true if this view is backed by the given inventory key
    pub fn wants_update_for(&self, key: &InventoryKey) -> (wanted: bool)
        ensures
            wanted == (self.stored_key() == Some(*key)),
    {
        match &self.backing {
            ViewBacking::Stored(our_key) => *our_key == *key,
            _ => false,
        }
    }

    /// Clears all the items in the view, returning them to their
    /// respective origin locations. The view is cleared for good.
    ///
    /// The stacks of a transient view are given back slot by slot, each to
    /// the inventory that it is borrowed from; the stacks that could not be
    /// given back (they are borrowed from nowhere, their inventory cannot be
    /// read or written, or it has no room) are handed to the caller. The other
    /// kinds of view hold nothing, and clearing them touches nothing.
    pub fn clear<D: GameDatabase>(&mut self, game_state: &mut GameState<D>) -> (kept: Vec<
        BorrowedStack,
    >)
        requires
            old(self).wf(),
        ensures
            final(self).is_cleared(),
            final(self).same_view_as(old(self)),
            final(self).wf(),
            final(game_state).spec_view_counter() == old(game_state).spec_view_counter(),
            final(game_state).tick() == old(game_state).tick(),
            final(game_state).inventory_manager().follows(old(game_state).inventory_manager()),
            match old(self).transient() {
                Some(slots) => {
                    &&& final(self).transient() == Some(
                        Seq::new(slots.len(), |i: int| None::<BorrowedStackView>),
                    )
                    &&& old(self).is_cleared() ==> kept@.len() == 0 && *final(game_state).inventory_manager() == *old(game_state).inventory_manager()
                    &&& !old(self).is_cleared() && old(game_state).inventory_manager().reliable()
                        ==> (GivenBack {
                        stored: final(game_state).inventory_manager().stored(),
                        published: final(game_state).inventory_manager().published(),
                        kept: kept.deep_view(),
                    }) == give_back_first(
                        GivenBack {
                            stored: old(game_state).inventory_manager().stored(),
                            published: old(game_state).inventory_manager().published(),
                            kept: Seq::empty(),
                        },
                        slots,
                        slots.len() as int,
                    )
                },
                None => {
                    &&& kept@.len() == 0
                    &&& *final(game_state).inventory_manager() == *old(
                        game_state,
                    ).inventory_manager()
                },
            },
    {
        let mut kept: Vec<BorrowedStack> = Vec::new();
        if self.cleared {
            return kept;
        }
        self.cleared = true;
        let ghost start = GivenBack {
            stored: game_state.inventory_manager().stored(),
            published: game_state.inventory_manager().published(),
            kept: Seq::empty(),
        };
        match &mut self.backing {
            ViewBacking::Transient(contents) => {
                let ghost slots = contents.deep_view();
                let mut i: usize = 0;
                assert(kept.deep_view() =~= Seq::<BorrowedStackView>::empty());
                while i < contents.len()
                    invariant
                        i <= contents.len(),
                        contents.deep_view().len() == slots.len(),
                        forall|k: int| 0 <= k < i ==> (#[trigger] contents.deep_view()[k]) is None,
                        forall|k: int|
                            i <= k < slots.len() ==> (#[trigger] contents.deep_view()[k])
                                == slots[k],
                        game_state.spec_view_counter() == old(game_state).spec_view_counter(),
                        game_state.tick() == old(game_state).tick(),
                        game_state.inventory_manager().follows(old(game_state).inventory_manager()),
                        old(game_state).inventory_manager().reliable() ==> (GivenBack {
                            stored: game_state.inventory_manager().stored(),
                            published: game_state.inventory_manager().published(),
                            kept: kept.deep_view(),
                        }) == give_back_first(start, slots, i as int),
                    decreases contents.len() - i,
                {
                    let ghost before = contents.deep_view();
                    assert(before[i as int] == contents@[i as int].deep_view());
                    let held = contents[i].take();
                    assert forall|k: int| 0 <= k < i + 1 implies (#[trigger] contents.deep_view()[k])
                        is None by {
                        if k < i {
                            assert(before[k] is None);
                        }
                    }
                    assert forall|k: int| i + 1 <= k < slots.len() implies (
                    #[trigger] contents.deep_view()[k]) == slots[k] by {
                        assert(before[k] == slots[k]);
                    }
                    match held {
                        Some(stack) => {
                            let ghost done = kept.deep_view();
                            match return_to_origin(game_state.inventory_manager_mut(), stack) {
                                Some(rest) => {
                                    kept.push(rest);
                                    assert(kept.deep_view() =~= done.push(rest@));
                                },
                                None => {},
                            }
                        },
                        None => {},
                    }
                    i = i + 1;
                }
                assert(contents.deep_view() =~= Seq::new(
                    slots.len(),
                    |i: int| None::<BorrowedStackView>,
                ));
            },
            _ => {},
        }
        kept
    }
}

/// A representation of an inventory view that's independent of the actual callback type involved.
///
/// The operations are defined for the views that hold or show items: stored
/// and transient ones. What they do on the virtual kinds is left open.
///
/// Every view owes its callers the two refusals: a view that was cleared
/// answers each operation with `InventoryError::Cleared`, and a view that
/// was not answers `take` and `put` on a slot that it does not have with
/// `InventoryError::Range`. Neither refusal touches the inventories of the
/// game state. A view never grows or shrinks, and `take` and `put` do not
/// clear it.
pub trait TypeErasedInventoryView<D: GameDatabase>: Sized {
    /// Whether the view is one that holds or shows items, and well formed.
    spec fn holds_items(&self) -> bool;

    /// Whether the view was cleared, and so refuses every operation.
    spec fn refuses_all(&self) -> bool;

    /// The number of slots that the view shows.
    spec fn slots_shown(&self) -> int;

    /// See the items in this view (e.g. to display the inventory).
    fn peek(&self, game_state: &GameState<D>) -> (result: Result<
        Vec<Option<ItemStack>>,
        InventoryError,
    >)
        requires
            self.holds_items(),
        ensures
            self.refuses_all() ==> (result matches Err(e) && e == InventoryError::Cleared),
    ;

    /// Takes a stack from one of the slots in this view (e.g. when clicked with a cursor).
    /// This will modify the items in this view.
    ///
    /// peek should be called immediately after to see what the view should display.
    fn take(&mut self, game_state: &mut GameState<D>, slot: usize, count: Option<u32>) -> (result:
        Result<Option<BorrowedStack>, InventoryError>)
        requires
            old(self).holds_items(),
        ensures
            final(self).holds_items(),
            final(self).refuses_all() == old(self).refuses_all(),
            final(self).slots_shown() == old(self).slots_shown(),
            old(self).refuses_all() ==> (result matches Err(e) && e == InventoryError::Cleared),
            !old(self).refuses_all() && slot >= old(self).slots_shown() ==> (result matches Err(e)
                && e == InventoryError::Range),
            old(self).refuses_all() || slot >= old(self).slots_shown() ==> *final(game_state).inventory_manager() == *old(game_state).inventory_manager(),
    ;

    /// Attempts to place a stack into the given slot in the view.
    /// Returns the leftover stack (possibly the entire provided stack if it cannot be accepted here)
    ///
    /// peek should be called immediate after to see what the view should display.
    fn put(&mut self, game_state: &mut GameState<D>, slot: usize, stack: BorrowedStack) -> (result:
        Result<Option<BorrowedStack>, InventoryError>)
        requires
            old(self).holds_items(),
        ensures
            final(self).holds_items(),
            final(self).refuses_all() == old(self).refuses_all(),
            final(self).slots_shown() == old(self).slots_shown(),
            old(self).refuses_all() ==> (result matches Err(e) && e == InventoryError::Cleared),
            !old(self).refuses_all() && slot >= old(self).slots_shown() ==> (result matches Err(e)
                && e == InventoryError::Range),
            old(self).refuses_all() || slot >= old(self).slots_shown() ==> *final(game_state).inventory_manager() == *old(game_state).inventory_manager(),
    ;
}

impl<T> InventoryView<T> {
    /// Whether `slot` is one of the slots of the view.
    fn has_slot(&self, slot: usize) -> (has: bool)
        ensures
            has == (slot < self.slot_count()),
    {
        let rows: u64 = self.dimensions.0 as u64;
        let cols: u64 = self.dimensions.1 as u64;
        assert(rows * cols <= u64::MAX) by (nonlinear_arith)
            requires
                rows <= u32::MAX,
                cols <= u32::MAX,
        ;
        (slot as u64) < rows * cols
    }

    /// The key of the inventory that a stored view shows.
    fn key_if_stored(&self) -> (key: Option<InventoryKey>)
        ensures
            key == self.stored_key(),
    {
        match &self.backing {
            ViewBacking::Stored(key) => Some(*key),
            _ => None,
        }
    }
}

impl<T, D: GameDatabase> TypeErasedInventoryView<D> for InventoryView<T> {
    open spec fn holds_items(&self) -> bool {
        &&& self.wf()
        &&& self.transient() is Some || self.stored_key() is Some
    }

    open spec fn refuses_all(&self) -> bool {
        self.is_cleared()
    }

    open spec fn slots_shown(&self) -> int {
        self.slot_count()
    }

    fn peek(&self, game_state: &GameState<D>) -> (result: Result<
        Vec<Option<ItemStack>>,
        InventoryError,
    >)
        ensures
            self.is_cleared() ==> (result matches Err(e) && e == InventoryError::Cleared),
            !self.is_cleared() ==> match self.spec_backing() {
                ViewBacking::Transient(contents) => result matches Ok(stacks)
                    && stacks.deep_view() == stacks_of(contents.deep_view()),
                ViewBacking::Stored(key) => game_state.inventory_manager().reliable()
                    ==> match stored_inventory(game_state.inventory_manager().stored(), key) {
                    StoredInventory::Record(record) => result matches Ok(stacks)
                        && stacks.deep_view() == slots_of_records(record.contents),
                    StoredInventory::Absent => result matches Err(e) && e
                        == InventoryError::NotFound,
                    StoredInventory::Corrupt => result matches Err(e) && e
                        == InventoryError::Corruption,
                },
                _ => true,
            },
    {
        if self.cleared {
            return Err(InventoryError::Cleared);
        }
        match &self.backing {
            ViewBacking::Transient(contents) => {
                let mut stacks: Vec<Option<ItemStack>> = Vec::new();
                let mut i: usize = 0;
                assert(stacks.deep_view() =~= stacks_of(contents.deep_view().take(0)));
                while i < contents.len()
                    invariant
                        i <= contents.len(),
                        stacks.deep_view() == stacks_of(contents.deep_view().take(i as int)),
                    decreases contents.len() - i,
                {
                    let ghost done = stacks.deep_view();
                    let stack = match &contents[i] {
                        Some(borrowed) => Some(borrowed.borrowed_stack.clone()),
                        None => None,
                    };
                    stacks.push(stack);
                    assert(stacks.deep_view() =~= done.push(stack.deep_view()));
                    assert(contents.deep_view()[i as int] == contents@[i as int].deep_view());
                    assert(stacks.deep_view() =~= stacks_of(contents.deep_view().take(i + 1)));
                    i = i + 1;
                }
                assert(contents.deep_view().take(i as int) =~= contents.deep_view());
                Ok(stacks)
            },
            ViewBacking::Stored(key) => {
                match game_state.inventory_manager().get(key) {
                    Ok(Some(inventory)) => Ok(inventory.into_contents()),
                    Ok(None) => Err(InventoryError::NotFound),
                    Err(e) => Err(e),
                }
            },
            _ => {
                proof {
                    assert(false);
                }
                Err(InventoryError::Cleared)
            },
        }
    }

    fn take(&mut self, game_state: &mut GameState<D>, slot: usize, count: Option<u32>) -> (result:
        Result<Option<BorrowedStack>, InventoryError>)
        ensures
            final(self).same_view_as(old(self)),
            final(self).is_cleared() == old(self).is_cleared(),
            final(game_state).spec_view_counter() == old(game_state).spec_view_counter(),
            final(game_state).tick() == old(game_state).tick(),
            if old(self).is_cleared() {
                &&& result matches Err(e) && e == InventoryError::Cleared
                &&& *final(self) == *old(self)
                &&& *final(game_state).inventory_manager() == *old(game_state).inventory_manager()
            } else if slot >= old(self).slot_count() {
                &&& result matches Err(e) && e == InventoryError::Range
                &&& *final(self) == *old(self)
                &&& *final(game_state).inventory_manager() == *old(game_state).inventory_manager()
            } else {
                match old(self).spec_backing() {
                    ViewBacking::Transient(contents) => {
                        &&& *final(game_state).inventory_manager() == *old(
                            game_state,
                        ).inventory_manager()
                        &&& result matches Ok(taken) && taken.deep_view() == transient_take(
                            contents.deep_view()[slot as int],
                            count,
                        ).out
                        &&& final(self).transient() == Some(
                            contents.deep_view().update(
                                slot as int,
                                transient_take(contents.deep_view()[slot as int], count).slot,
                            ),
                        )
                    },
                    ViewBacking::Stored(key) => {
                        &&& *final(self) == *old(self)
                        &&& stored_slot_changed(
                            old(game_state).inventory_manager(),
                            final(game_state).inventory_manager(),
                            key,
                            slot as int,
                            SlotChange::Take(count),
                            stack_result(result),
                        )
                        &&& result matches Ok(Some(taken)) ==> taken@.borrows_from == Some(
                            (key, slot),
                        )
                    },
                    _ => true,
                }
            },
    {
        if self.cleared {
            return Err(InventoryError::Cleared);
        }
        if !self.has_slot(slot) {
            return Err(InventoryError::Range);
        }
        match self.key_if_stored() {
            Some(key) => {
                let taken = change_stored_slot(
                    game_state.inventory_manager_mut(),
                    key,
                    slot,
                    SlotAction::Take(count),
                );
                match taken {
                    Ok(Some(obtained)) => Ok(
                        Some(
                            BorrowedStack {
                                borrows_from: Some((key, slot)),
                                borrowed_stack: obtained,
                            },
                        ),
                    ),
                    Ok(None) => Ok(None),
                    Err(e) => Err(e),
                }
            },
            None => {
                match &mut self.backing {
                    ViewBacking::Transient(contents) => {
                        let ghost before = contents.deep_view();
                        assert(before[slot as int] == contents@[slot as int].deep_view());
                        match contents[slot].take() {
                            Some(held) => {
                                let borrows_from = held.borrows_from;
                                let mut inner = Some(held.borrowed_stack);
                                let obtained = inner.take_items(count);
                                contents[slot] = match inner {
                                    Some(rest) => Some(
                                        BorrowedStack { borrows_from, borrowed_stack: rest },
                                    ),
                                    None => None,
                                };
                                assert(contents.deep_view() =~= before.update(
                                    slot as int,
                                    transient_take(before[slot as int], count).slot,
                                ));
                                Ok(
                                    match obtained {
                                        Some(stack) => Some(
                                            BorrowedStack { borrows_from, borrowed_stack: stack },
                                        ),
                                        None => None,
                                    },
                                )
                            },
                            None => {
                                assert(contents.deep_view() =~= before.update(
                                    slot as int,
                                    transient_take(before[slot as int], count).slot,
                                ));
                                Ok(None)
                            },
                        }
                    },
                    _ => {
                        proof {
                            assert(false);
                        }
                        Err(InventoryError::Cleared)
                    },
                }
            },
        }
    }

    fn put(&mut self, game_state: &mut GameState<D>, slot: usize, stack: BorrowedStack) -> (result:
        Result<Option<BorrowedStack>, InventoryError>)
        ensures
            final(self).same_view_as(old(self)),
            final(self).is_cleared() == old(self).is_cleared(),
            final(game_state).spec_view_counter() == old(game_state).spec_view_counter(),
            final(game_state).tick() == old(game_state).tick(),
            if old(self).is_cleared() {
                &&& result matches Err(e) && e == InventoryError::Cleared
                &&& *final(self) == *old(self)
                &&& *final(game_state).inventory_manager() == *old(game_state).inventory_manager()
            } else if slot >= old(self).slot_count() {
                &&& result matches Err(e) && e == InventoryError::Range
                &&& *final(self) == *old(self)
                &&& *final(game_state).inventory_manager() == *old(game_state).inventory_manager()
            } else {
                match old(self).spec_backing() {
                    ViewBacking::Transient(contents) => {
                        &&& *final(game_state).inventory_manager() == *old(
                            game_state,
                        ).inventory_manager()
                        &&& result matches Ok(left) && left.deep_view() == transient_put(
                            contents.deep_view()[slot as int],
                            stack@,
                        ).out
                        &&& final(self).transient() == Some(
                            contents.deep_view().update(
                                slot as int,
                                transient_put(contents.deep_view()[slot as int], stack@).slot,
                            ),
                        )
                    },
                    ViewBacking::Stored(key) => {
                        &&& *final(self) == *old(self)
                        &&& stored_slot_changed(
                            old(game_state).inventory_manager(),
                            final(game_state).inventory_manager(),
                            key,
                            slot as int,
                            SlotChange::Put(stack@.borrowed_stack),
                            stack_result(result),
                        )
                        &&& result matches Ok(Some(left)) ==> left@.borrows_from
                            == stack@.borrows_from
                    },
                    _ => true,
                }
            },
    {
        if self.cleared {
            return Err(InventoryError::Cleared);
        }
        if !self.has_slot(slot) {
            return Err(InventoryError::Range);
        }
        let borrows_from = stack.borrows_from;
        match self.key_if_stored() {
            Some(key) => {
                let left = change_stored_slot(
                    game_state.inventory_manager_mut(),
                    key,
                    slot,
                    SlotAction::Put(stack.borrowed_stack),
                );
                match left {
                    Ok(Some(leftover)) => Ok(
                        Some(BorrowedStack { borrows_from, borrowed_stack: leftover }),
                    ),
                    Ok(None) => Ok(None),
                    Err(e) => Err(e),
                }
            },
            None => {
                match &mut self.backing {
                    ViewBacking::Transient(contents) => {
                        let ghost before = contents.deep_view();
                        assert(before[slot as int] == contents@[slot as int].deep_view());
                        let (held_from, mut inner) = match contents[slot].take() {
                            Some(held) => (held.borrows_from, Some(held.borrowed_stack)),
                            None => (borrows_from, None),
                        };
                        let leftover = inner.try_merge(Some(stack.borrowed_stack));
                        contents[slot] = match inner {
                            Some(merged) => Some(
                                BorrowedStack { borrows_from: held_from, borrowed_stack: merged },
                            ),
                            None => None,
                        };
                        assert(contents.deep_view() =~= before.update(
                            slot as int,
                            transient_put(before[slot as int], stack@).slot,
                        ));
                        Ok(
                            match leftover {
                                Some(rest) => Some(
                                    BorrowedStack { borrows_from, borrowed_stack: rest },
                                ),
                                None => None,
                            },
                        )
                    },
                    _ => {
                        proof {
                            assert(false);
                        }
                        Err(InventoryError::Cleared)
                    },
                }
            },
        }
    }
}

} // verus!
