//! Item definitions, item stacks, and the merge/split algebra on stacks and slots.

use crate::protocol::{ItemDef, ItemStackView, QuantityType};
use vstd::prelude::*;

verus! {

/// Result of the dig handler of an [`Item`].
pub struct DigResult {
    /// An updated version of the item (stack) that was used to dig.
    /// If None, the item disappears (e.g. a pickaxe breaks when its durability runs out).
    /// Does not need to be the same kind of item as the one that was used.
    pub updated_tool: Option<ItemStack>,
    /// Items that were obtained from digging and ought to be added to the player's inventory.
    pub obtained_items: Vec<ItemStack>,
}

/// A kind of item, with the behaviour the game attaches to it.
///
/// `I` is the type of the handlers that run when a block is dug or tapped with
/// the item, `P` that of the handler that runs when the item is placed. The
/// registry only stores them.
pub struct Item<I, P> {
    pub proto: ItemDef,
    /// Called when the item is used to dig a block. If None, the block's own
    /// dig handler runs and the stack is not updated.
    pub dig_handler: Option<I>,
    /// Same as `dig_handler`, but called when the block is briefly tapped
    /// without digging it fully.
    pub tap_handler: Option<I>,
    /// Called when the stack is placed. If None, nothing happens.
    pub place_handler: Option<P>,
}

impl ItemStackView {
    /// The invariant of a stack that is held in a slot: it holds at least one
    /// item, and a stack that does not stack has no stack limit.
    pub open spec fn wf(self) -> bool {
        self.quantity >= 1 && (!self.stackable ==> self.max_stack == 0)
    }

    /// How many more items fit into this stack.
    pub open spec fn room(self) -> int {
        if self.max_stack >= self.quantity {
            self.max_stack - self.quantity
        } else {
            0
        }
    }

    /// Whether items of `other` may be moved into this stack at all: both
    /// stacks have a stack limit and hold the same kind of item.
    pub open spec fn accepts(self, other: ItemStackView) -> bool {
        self.max_stack != 0 && other.max_stack != 0 && self.item_name == other.item_name
    }

    /// How many items move from `other` into this stack when the two are merged.
    pub open spec fn moved(self, other: ItemStackView) -> int {
        if !self.accepts(other) {
            0
        } else if other.quantity <= self.room() {
            other.quantity as int
        } else {
            self.room()
        }
    }

    /// This stack with another quantity.
    pub open spec fn with_quantity(self, quantity: int) -> ItemStackView {
        ItemStackView { quantity: quantity as u32, ..self }
    }

    /// This stack after `other` was merged into it.
    pub open spec fn merged(self, other: ItemStackView) -> ItemStackView {
        self.with_quantity(self.quantity + self.moved(other))
    }

    /// What is left of `other` after it was merged into this stack.
    pub open spec fn leftover(self, other: ItemStackView) -> Option<ItemStackView> {
        if !self.accepts(other) {
            Some(other)
        } else if other.quantity == self.moved(other) {
            None
        } else {
            Some(other.with_quantity(other.quantity - self.moved(other)))
        }
    }

    /// Whether all of `other` can be merged into this stack.
    pub open spec fn fits(self, other: ItemStackView) -> bool {
        self.accepts(other) && other.quantity <= self.room()
    }

    /// Whether part of the stack may be taken: the stack stacks and has a
    /// stack limit. Any other stack is rigid, and is only taken whole.
    pub open spec fn splits(self) -> bool {
        self.stackable && self.max_stack != 0
    }

    /// Whether this stack may fill an empty slot whole: it has no stack limit,
    /// or it is within it.
    pub open spec fn fits_alone(self) -> bool {
        self.max_stack == 0 || self.quantity <= self.max_stack
    }
}

/// The number of items in a slot; an empty slot holds none.
pub open spec fn slot_quantity(slot: Option<ItemStackView>) -> int {
    match slot {
        Some(stack) => stack.quantity as int,
        None => 0,
    }
}

/// A slot and what was handed out of it (or could not be put into it).
pub struct SlotOutcome {
    /// The slot after the operation.
    pub slot: Option<ItemStackView>,
    /// The stack that the operation returns.
    pub out: Option<ItemStackView>,
}

/// Merging `other` into `slot`. An empty slot takes `other` up to its stack
/// limit (all of it where it has none); a filled slot takes what its stack
/// accepts. The rest is handed back.
pub open spec fn merge_slot(slot: Option<ItemStackView>, other: Option<ItemStackView>) -> SlotOutcome {
    match (slot, other) {
        (_, None) => SlotOutcome { slot, out: None },
        (None, Some(o)) => if o.fits_alone() {
            SlotOutcome { slot: Some(o), out: None }
        } else {
            SlotOutcome {
                slot: Some(o.with_quantity(o.max_stack as int)),
                out: Some(o.with_quantity(o.quantity - o.max_stack)),
            }
        },
        (Some(s), Some(o)) => SlotOutcome { slot: Some(s.merged(o)), out: s.leftover(o) },
    }
}

/// Whether all of `other` can be merged into `slot`.
pub open spec fn fits_slot(slot: Option<ItemStackView>, other: Option<ItemStackView>) -> bool {
    match (slot, other) {
        (_, None) => true,
        (None, Some(o)) => o.fits_alone(),
        (Some(s), Some(o)) => s.fits(o),
    }
}

/// Taking up to `count` items out of `slot`, or the whole stack where `count`
/// is None. A stack that does not stack is only handed out whole, and a
/// request for no items takes nothing.
pub open spec fn take_from_slot(slot: Option<ItemStackView>, count: Option<u32>) -> SlotOutcome {
    match (slot, count) {
        (_, None) => SlotOutcome { slot: None, out: slot },
        (None, Some(_)) => SlotOutcome { slot: None, out: None },
        (Some(s), Some(n)) => if !s.splits() || n == 0 {
            SlotOutcome { slot, out: None }
        } else if s.quantity <= n {
            SlotOutcome { slot: None, out: slot }
        } else {
            SlotOutcome {
                slot: Some(s.with_quantity(s.quantity - n)),
                out: Some(s.with_quantity(n as int)),
            }
        },
    }
}

/// Whether exactly `count` items (or, where `count` is None, the whole stack)
/// can be taken out of `slot`: the slot holds a stack that can be split and
/// has at least that many items, and at least one item is asked for.
pub open spec fn can_take_all(slot: Option<ItemStackView>, count: Option<u32>) -> bool {
    match (slot, count) {
        (_, None) => true,
        (None, Some(_)) => false,
        (Some(s), Some(n)) => s.splits() && 1 <= n <= s.quantity,
    }
}

/// Taking exactly `count` items out of `slot`, or nothing where the slot
/// cannot give that many.
pub open spec fn take_all_from_slot(slot: Option<ItemStackView>, count: Option<u32>) -> SlotOutcome {
    if can_take_all(slot, count) {
        take_from_slot(slot, count)
    } else {
        SlotOutcome { slot, out: None }
    }
}

/// Merging conserves quantity: what the slot and the merged stack held before
/// is what the slot and the leftover hold afterwards.
pub proof fn lemma_merge_conserves_quantity(
    slot: Option<ItemStackView>,
    other: Option<ItemStackView>,
)
    ensures
        slot_quantity(slot) + slot_quantity(other) == slot_quantity(merge_slot(slot, other).slot)
            + slot_quantity(merge_slot(slot, other).out),
{
}

/// The number of items of the kind `name` in a slot.
pub open spec fn slot_quantity_of(slot: Option<ItemStackView>, name: Seq<char>) -> int {
    match slot {
        Some(stack) => if stack.item_name == name {
            stack.quantity as int
        } else {
            0
        },
        None => 0,
    }
}

/// Merging neither makes nor loses items of any kind: the slot and the
/// leftover hold of each kind what the slot and the other stack held of it.
pub proof fn lemma_merge_conserves_each_kind(
    slot: Option<ItemStackView>,
    other: Option<ItemStackView>,
    name: Seq<char>,
)
    ensures
        slot_quantity_of(slot, name) + slot_quantity_of(other, name) == slot_quantity_of(
            merge_slot(slot, other).slot,
            name,
        ) + slot_quantity_of(merge_slot(slot, other).out, name),
{
}

/// Merging never changes what kind of item a filled slot holds, and a
/// leftover is of the kind that was put in.
pub proof fn lemma_merge_keeps_kinds(slot: ItemStackView, other: ItemStackView)
    ensures
        merge_slot(Some(slot), Some(other)).slot == Some(
            slot.with_quantity(slot_quantity(merge_slot(Some(slot), Some(other)).slot)),
        ),
        merge_slot(Some(slot), Some(other)).out matches Some(rest) ==> rest == other.with_quantity(
            rest.quantity as int,
        ),
{
}

/// A merge without leftovers is all or nothing: where the whole stack fits,
/// merging moves all of it and leaves nothing over; where it does not, the
/// all-or-nothing merge is refused, which leaves the slot as it was.
pub proof fn lemma_merge_all_is_atomic(slot: Option<ItemStackView>, other: Option<ItemStackView>)
    ensures
        fits_slot(slot, other) ==> merge_slot(slot, other).out is None && slot_quantity(
            merge_slot(slot, other).slot,
        ) == slot_quantity(slot) + slot_quantity(other),
        !fits_slot(slot, other) ==> merge_slot(slot, other).out is Some,
{
}

/// Taking never hands out more than was asked for, nor more than the slot
/// held, and what is handed out and what stays add up to what the slot held.
pub proof fn lemma_take_bounds(slot: Option<ItemStackView>, count: Option<u32>)
    ensures
        slot_quantity(take_from_slot(slot, count).out) <= slot_quantity(slot),
        count matches Some(n) ==> slot_quantity(take_from_slot(slot, count).out) <= n,
        slot_quantity(take_from_slot(slot, count).slot) + slot_quantity(
            take_from_slot(slot, count).out,
        ) == slot_quantity(slot),
        slot_quantity(take_all_from_slot(slot, count).slot) + slot_quantity(
            take_all_from_slot(slot, count).out,
        ) == slot_quantity(slot),
        count matches Some(n) ==> take_all_from_slot(slot, count).out is None || slot_quantity(
            take_all_from_slot(slot, count).out,
        ) == n,
{
}

/// A stack without a stack limit is rigid: merging into it or merging it into
/// another stack changes neither, with or without leftovers allowed.
pub proof fn lemma_unstackable_does_not_merge(rigid: ItemStackView, other: ItemStackView)
    requires
        rigid.max_stack == 0,
    ensures
        merge_slot(Some(rigid), Some(other)) == (SlotOutcome {
            slot: Some(rigid),
            out: Some(other),
        }),
        merge_slot(Some(other), Some(rigid)) == (SlotOutcome {
            slot: Some(other),
            out: Some(rigid),
        }),
        !fits_slot(Some(rigid), Some(other)),
        !fits_slot(Some(other), Some(rigid)),
{
    assert(other.with_quantity(other.quantity as int) == other);
}

/// A stack without a stack limit, or one that does not stack, is only taken
/// whole: a request for a number of its items takes nothing and leaves the
/// slot as it was, a request for all of it empties the slot.
pub proof fn lemma_unstackable_is_taken_whole(rigid: ItemStackView, count: u32)
    requires
        rigid.max_stack == 0 || !rigid.stackable,
    ensures
        take_from_slot(Some(rigid), Some(count)) == (SlotOutcome { slot: Some(rigid), out: None }),
        take_all_from_slot(Some(rigid), Some(count)) == (SlotOutcome {
            slot: Some(rigid),
            out: None,
        }),
        take_from_slot(Some(rigid), None) == (SlotOutcome { slot: None, out: Some(rigid) }),
        take_all_from_slot(Some(rigid), None) == (SlotOutcome { slot: None, out: Some(rigid) }),
{
}

/// The operations keep stacks well formed: merging well-formed stacks gives
/// well-formed stacks, and so does taking items. No stack without items is
/// ever made of stacks that have some.
pub proof fn lemma_operations_keep_stacks_well_formed(
    slot: Option<ItemStackView>,
    other: Option<ItemStackView>,
    count: Option<u32>,
)
    requires
        slot matches Some(s) ==> s.wf(),
        other matches Some(o) ==> o.wf(),
    ensures
        merge_slot(slot, other).slot matches Some(s) ==> s.wf(),
        merge_slot(slot, other).out matches Some(o) ==> o.wf(),
        take_from_slot(slot, count).slot matches Some(s) ==> s.wf(),
        take_from_slot(slot, count).out matches Some(o) ==> o.wf(),
        take_all_from_slot(slot, count).slot matches Some(s) ==> s.wf(),
        take_all_from_slot(slot, count).out matches Some(o) ==> o.wf(),
{
}

/// A stack of items of one kind.
#[derive(Debug)]
pub struct ItemStack {
    pub proto: crate::protocol::ItemStack,
}

impl View for ItemStack {
    type V = ItemStackView;

    open spec fn view(&self) -> ItemStackView {
        self.proto@
    }
}

impl DeepView for ItemStack {
    type V = ItemStackView;

    open spec fn deep_view(&self) -> ItemStackView {
        self@
    }
}

impl Clone for ItemStack {
    fn clone(&self) -> (copy: Self)
        ensures
            copy == *self,
    {
        ItemStack { proto: self.proto.clone() }
    }
}

impl ItemStack {
    /// The stack limit that a definition gives to stacks of its item.
    pub open spec fn spec_max_stack(def: ItemDef) -> u32 {
        match def.quantity_type {
            Some(QuantityType::Stack(x)) => x,
            _ => 0,
        }
    }

    /// Creates an ItemStack of the given item.
    pub fn new<I, P>(item: &Item<I, P>, quantity: u32) -> (stack: ItemStack)
        ensures
            stack@ == (ItemStackView {
                item_name: item.proto.short_name@,
                quantity,
                max_stack: Self::spec_max_stack(item.proto),
                stackable: item.proto.quantity_type matches Some(QuantityType::Stack(_)),
            }),
    {
        let max_stack: u32 = match item.proto.quantity_type {
            Some(QuantityType::Stack(x)) => x,
            Some(QuantityType::Wear(_)) => 0,
            None => 0,
        };
        let stackable = match item.proto.quantity_type {
            Some(QuantityType::Stack(_)) => true,
            _ => false,
        };
        ItemStack {
            proto: crate::protocol::ItemStack {
                item_name: item.proto.short_name.clone(),
                quantity,
                max_stack,
                stackable,
            },
        }
    }

    /// The stack that a record stands for: none where the record's name is empty.
    pub fn from_proto(proto: &crate::protocol::ItemStack) -> (stack: Option<ItemStack>)
        ensures
            stack.deep_view() == (if proto@.item_name.len() == 0 {
                None
            } else {
                Some(proto@)
            }),
    {
        if proto.item_name.as_str().is_empty() {
            None
        } else {
            Some(ItemStack { proto: proto.clone() })
        }
    }

    /// The record of the stack.
    pub fn proto(&self) -> (record: &crate::protocol::ItemStack)
        ensures
            *record == self.proto,
    {
        &self.proto
    }

    /// Tries to merge the provided stack into this one, returning any leftover.
    pub fn try_merge(&mut self, stack: ItemStack) -> (leftover: Option<ItemStack>)
        ensures
            final(self)@ == old(self)@.merged(stack@),
            leftover.deep_view() == old(self)@.leftover(stack@),
            !old(self)@.accepts(stack@) ==> *final(self) == *old(self) && leftover == Some(stack),
    {
        // We aren't stackable.
        if self.proto.max_stack == 0 {
            return Some(stack);
        }
        // The other stack is either non-stackable or wear-based. Don't try to stack,
        // even if we have the same item name and think it's stackable.

        if stack.proto.max_stack == 0 {
            return Some(stack);
        }
        if !(self.proto.item_name == stack.proto.item_name) {
            return Some(stack);
        }
        let room = self.proto.max_stack.saturating_sub(self.proto.quantity);
        let move_size = if stack.proto.quantity < room {
            stack.proto.quantity
        } else {
            room
        };
        self.proto.quantity = self.proto.quantity + move_size;
        let remaining = stack.proto.quantity - move_size;
        if remaining == 0 {
            None
        } else {
            let mut rest = stack;
            rest.proto.quantity = remaining;
            Some(rest)
        }
    }

    /// Tries to merge the provided stack into this one, without allowing leftovers.
    /// Returns true on success, false (and self is unmodified) on failure.
    pub fn try_merge_all(&mut self, stack: ItemStack) -> (merged: bool)
        ensures
            merged == old(self)@.fits(stack@),
            merged ==> final(self)@ == old(self)@.with_quantity(old(self)@.quantity + stack@.quantity),
            !merged ==> *final(self) == *old(self),
    {
        // We aren't stackable.
        if self.proto.max_stack == 0 {
            return false;
        }
        // The other stack is either non-stackable or wear-based. Don't try to stack,
        // even if we have the same item name and think it's stackable.

        if stack.proto.max_stack == 0 {
            return false;
        }
        if !(self.proto.item_name == stack.proto.item_name) {
            return false;
        }
        let available_space = self.proto.max_stack.saturating_sub(self.proto.quantity);
        if available_space < stack.proto.quantity {
            return false;
        }
        self.proto.quantity = self.proto.quantity + stack.proto.quantity;
        true
    }

    /// Whether part of the stack may be taken: the stack stacks and has a
    /// stack limit.
    pub fn splits(&self) -> (splits: bool)
        ensures
            splits == self@.splits(),
    {
        self.proto.stackable && self.proto.max_stack != 0
    }

    /// The stack with one item less, or none where that was its last item.
    pub fn decrement(&self) -> (rest: Option<ItemStack>)
        ensures
            rest.deep_view() == (if self@.quantity <= 1 {
                None
            } else {
                Some(self@.with_quantity(self@.quantity - 1))
            }),
    {
        if self.proto.quantity <= 1 {
            None
        } else {
            let mut rest = self.clone();
            rest.proto.quantity = self.proto.quantity - 1;
            Some(rest)
        }
    }
}

/// A slot that holds a stack or nothing.
pub trait MaybeStack: Sized {
    /// What the slot holds.
    spec fn stack(&self) -> Option<ItemStackView>;

    /// Try to merge the provided stack into this one. Returns leftovers.
    fn try_merge(&mut self, other: Self) -> (leftover: Self)
        ensures
            final(self).stack() == merge_slot(old(self).stack(), other.stack()).slot,
            leftover.stack() == merge_slot(old(self).stack(), other.stack()).out,
    ;

    /// Try to merge the provided stack into this one. Do not allow leftovers.
    /// True if merged successfully; otherwise this slot is unchanged.
    fn try_merge_all(&mut self, other: Self) -> (merged: bool)
        ensures
            merged == fits_slot(old(self).stack(), other.stack()),
            merged ==> final(self).stack() == merge_slot(old(self).stack(), other.stack()).slot,
            !merged ==> final(self).stack() == old(self).stack(),
    ;

    /// Try to take some subset of items (or the entire stack if count is None).
    /// Returns what could be taken. Nothing is taken of a stack that cannot be
    /// split, nor where no items are asked for.
    fn take_items(&mut self, count: Option<u32>) -> (taken: Self)
        ensures
            final(self).stack() == take_from_slot(old(self).stack(), count).slot,
            taken.stack() == take_from_slot(old(self).stack(), count).out,
    ;

    /// Try to take the requested number of items (or the entire stack if count is None).
    /// If the stack doesn't contain enough items, None is returned and the slot
    /// is left as it was.
    fn try_take_all(&mut self, count: Option<u32>) -> (taken: Self)
        ensures
            final(self).stack() == take_all_from_slot(old(self).stack(), count).slot,
            taken.stack() == take_all_from_slot(old(self).stack(), count).out,
    ;
}

impl MaybeStack for Option<ItemStack> {
    open spec fn stack(&self) -> Option<ItemStackView> {
        self.deep_view()
    }

    fn try_merge(&mut self, other: Option<ItemStack>) -> (leftover: Option<ItemStack>) {
        match other {
            Some(other) => match self {
                Some(self_inner) => self_inner.try_merge(other),
                None => {
                    let limit = other.proto.max_stack;
                    if limit == 0 || other.proto.quantity <= limit {
                        *self = Some(other);
                        None
                    } else {
                        let mut placed = other.clone();
                        placed.proto.quantity = limit;
                        let mut rest = other;
                        rest.proto.quantity = rest.proto.quantity - limit;
                        *self = Some(placed);
                        Some(rest)
                    }
                },
            },
            None => None,
        }
    }

    fn try_merge_all(&mut self, other: Self) -> (merged: bool) {
        match other {
            Some(other) => {
                match self {
                    Some(self_inner) => self_inner.try_merge_all(other),
                    None => {
                        // An empty slot takes a whole stack that is within its limit.
                        if other.proto.max_stack == 0 || other.proto.quantity
                            <= other.proto.max_stack {
                            *self = Some(other);
                            true
                        } else {
                            false
                        }
                    },
                }
            },
            // If the other stack is empty, we have nothing to insert, which we can always do successfully.
            None => true,
        }
    }

    fn take_items(&mut self, count: Option<u32>) -> (taken: Option<ItemStack>) {
        match count {
            Some(count) => {
                if self.is_some() {
                    if self.as_ref().unwrap().splits() && count != 0 {
                        let self_count = self.as_ref().unwrap().proto.quantity;
                        if self_count <= count {
                            self.take()
                        } else {
                            let mut taken = self.as_ref().unwrap().clone();
                            taken.proto.quantity = count;
                            self.as_mut().unwrap().proto.quantity = self_count - count;
                            Some(taken)
                        }
                    } else {
                        None
                    }
                } else {
                    None
                }
            },
            None => self.take(),
        }
    }

    fn try_take_all(&mut self, count: Option<u32>) -> (taken: Option<ItemStack>) {
        match count {
            Some(count) => {
                if self.is_some() {
                    if self.as_ref().unwrap().splits() && count != 0 {
                        let available = self.as_ref().unwrap().proto.quantity;
                        if available == count {
                            self.take()
                        } else if available > count {
                            let mut taken = self.as_ref().unwrap().clone();
                            taken.proto.quantity = count;
                            self.as_mut().unwrap().proto.quantity = available - count;
                            Some(taken)
                        } else {
                            None
                        }
                    } else {
                        None
                    }
                } else {
                    None
                }
            },
            None => self.take(),
        }
    }
}

/// Why an item could not be registered.
#[derive(Debug)]
pub enum ItemError {
    /// An item of that name is registered already.
    AlreadyRegistered { name: String },
}

/// The registry of the kinds of item that the game knows, by name. No two
/// registered items have the same name.
pub struct ItemManager<I, P> {
    items: Vec<Item<I, P>>,
}

impl<I, P> ItemManager<I, P> {
    /// The registered items, in the order of their registration.
    pub closed spec fn view(&self) -> Seq<Item<I, P>> {
        self.items@
    }

    /// No name is registered twice.
    pub open spec fn wf(&self) -> bool {
        forall|i: int, j: int|
            0 <= i < j < self@.len() ==> self@[i].proto.short_name@ != self@[j].proto.short_name@
    }

    /// Whether an item of that name is registered.
    pub open spec fn is_registered(&self, name: Seq<char>) -> bool {
        exists|i: int| 0 <= i < self@.len() && #[trigger] self@[i].proto.short_name@ == name
    }

    /// A registry without items.
    pub fn new() -> (manager: ItemManager<I, P>)
        ensures
            manager@.len() == 0,
            manager.wf(),
    {
        ItemManager { items: Vec::new() }
    }

    /// The definition of the item that a stack holds.
    pub fn from_stack(&self, stack: &ItemStack) -> (found: Option<&Item<I, P>>)
        ensures
            match found {
                Some(item) => item.proto.short_name@ == stack@.item_name && self@.contains(*item),
                None => !self.is_registered(stack@.item_name),
            },
    {
        self.get_item(stack.proto.item_name.as_str())
    }

    /// The item registered under `name`.
    pub fn get_item(&self, name: &str) -> (found: Option<&Item<I, P>>)
        ensures
            match found {
                Some(item) => item.proto.short_name@ == name@ && self@.contains(*item),
                None => !self.is_registered(name@),
            },
    {
        let wanted = name.to_owned();
        let mut i: usize = 0;
        while i < self.items.len()
            invariant
                i <= self.items.len(),
                wanted@ == name@,
                forall|k: int| 0 <= k < i ==> self@[k].proto.short_name@ != name@,
            decreases self.items.len() - i,
        {
            if self.items[i].proto.short_name == wanted {
                return Some(&self.items[i]);
            }
            i = i + 1;
        }
        None
    }

    /// Registers an item, unless one of its name is registered already.
    pub fn register_item(&mut self, item: Item<I, P>) -> (result: Result<(), ItemError>)
        ensures
            old(self).is_registered(item.proto.short_name@) ==> result is Err && final(self)@ == old(
                self,
            )@,
            !old(self).is_registered(item.proto.short_name@) ==> result is Ok && final(self)@ == old(
                self,
            )@.push(item),
            result matches Err(ItemError::AlreadyRegistered { name }) ==> name@
                == item.proto.short_name@,
            old(self).wf() ==> final(self).wf(),
    {
        if self.get_item(item.proto.short_name.as_str()).is_some() {
            return Err(ItemError::AlreadyRegistered { name: item.proto.short_name.clone() });
        }
        self.items.push(item);
        Ok(())
    }

    /// All registered items, in the order of their registration.
    pub fn registered_items(&self) -> (items: &Vec<Item<I, P>>)
        ensures
            items@ == self@,
    {
        &self.items
    }
}

} // verus!
