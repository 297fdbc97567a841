//! The furnace: a block that burns fuel to smelt what is put into it.
//!
//! A furnace has three slots (input, output and fuel) and is ticked four
//! times a second. This module holds what the furnace keeps between ticks,
//! how that is written, and what a tick does. Which recipes match the slots
//! is looked up by the caller and handed to the tick.

use crate::inventory::Inventory;
use crate::items::{
    fits_slot, merge_slot, slot_quantity, take_all_from_slot, ItemStack, MaybeStack,
};
use crate::protocol::{DecodeError, ItemStackView};
use crate::wire::{
    bytes_field, bytes_to_vec, int_field, lemma_bytes_field_parses, lemma_five_pieces,
    lemma_int_field_parses,
    lemma_parsed_bytes_field, lemma_parsed_int_field, parse_bytes_field, parse_int_field,
    read_bytes_field, read_int_field, string_from_utf8, write_bytes_field, write_int_field,
};
use vstd::prelude::*;
use vstd::slice::slice_subrange;
use vstd::utf8::{
    decode_utf8, decode_utf8_encode_utf8, encode_utf8, encode_utf8_decode_utf8,
    encode_utf8_valid_utf8, valid_utf8,
};

verus! {

/// What a [`FurnaceState`] holds, as mathematical values.
pub struct FurnaceStateView {
    pub flame_left: u32,
    pub total_flame: u32,
    pub smelt_progress: u32,
    pub smelt_ticks: u32,
    pub smelted_item: Seq<char>,
}

/// Extended data for a furnace. One tick is a quarter of a second.
#[derive(Debug)]
pub struct FurnaceState {
    /// Number of ticks of flame left
    pub flame_left: u32,
    /// Total amount of flame provided from the last fuel that was burned
    pub total_flame: u32,
    /// Number of ticks of progress toward smelting the current input
    pub smelt_progress: u32,
    /// Total smelt ticks before smelting is done
    pub smelt_ticks: u32,
    /// The item being smelted. If this doesn't match the inventory on a tick, we will
    /// reset the smelt progress to 0.
    pub smelted_item: String,
}

impl View for FurnaceState {
    type V = FurnaceStateView;

    open spec fn view(&self) -> FurnaceStateView {
        FurnaceStateView {
            flame_left: self.flame_left,
            total_flame: self.total_flame,
            smelt_progress: self.smelt_progress,
            smelt_ticks: self.smelt_ticks,
            smelted_item: self.smelted_item@,
        }
    }
}

impl Clone for FurnaceState {
    fn clone(&self) -> (copy: Self)
        ensures
            copy == *self,
    {
        FurnaceState {
            flame_left: self.flame_left,
            total_flame: self.total_flame,
            smelt_progress: self.smelt_progress,
            smelt_ticks: self.smelt_ticks,
            smelted_item: self.smelted_item.clone(),
        }
    }
}

impl Default for FurnaceState {
    fn default() -> (state: Self)
        ensures
            state@ == FurnaceStateView::cold(),
    {
        FurnaceState {
            flame_left: 0,
            total_flame: 0,
            smelt_progress: 0,
            smelt_ticks: 0,
            smelted_item: String::new(),
        }
    }
}

impl FurnaceStateView {
    /// The state of a furnace that was never lit.
    pub open spec fn cold() -> FurnaceStateView {
        FurnaceStateView {
            flame_left: 0,
            total_flame: 0,
            smelt_progress: 0,
            smelt_ticks: 0,
            smelted_item: Seq::empty(),
        }
    }

    /// Whether the state can be written: the length of the item's name fits
    /// the length prefix. Every state that is held in memory can.
    pub open spec fn encodable(self) -> bool {
        encode_utf8(self.smelted_item).len() <= u64::MAX
    }

    /// The bytes of the state: the four numbers as fields 1 to 4, and the name
    /// of the item in UTF-8 as field 5.
    pub open spec fn encoding(self) -> Seq<u8> {
        int_field(0x08, self.flame_left as u64) + int_field(0x10, self.total_flame as u64)
            + int_field(0x18, self.smelt_progress as u64) + int_field(
            0x20,
            self.smelt_ticks as u64,
        ) + bytes_field(0x2a, encode_utf8(self.smelted_item))
    }

    /// The state that `bytes` hold, if they are the bytes of one: the five
    /// fields are read one after the other, and have to be all there is.
    #[verifier::opaque]
    pub open spec fn parse(bytes: Seq<u8>) -> Option<FurnaceStateView> {
        let flame_left = parse_int_field(0x08, bytes);
        let n1 = flame_left.unwrap().1;
        let total_flame = parse_int_field(0x10, bytes.skip(n1));
        let n2 = n1 + total_flame.unwrap().1;
        let smelt_progress = parse_int_field(0x18, bytes.skip(n2));
        let n3 = n2 + smelt_progress.unwrap().1;
        let smelt_ticks = parse_int_field(0x20, bytes.skip(n3));
        let n4 = n3 + smelt_ticks.unwrap().1;
        let smelted_item = parse_bytes_field(0x2a, bytes.skip(n4));
        let n5 = n4 + smelted_item.unwrap().1;
        if flame_left is Some && total_flame is Some && smelt_progress is Some && smelt_ticks
            is Some && smelted_item is Some && n5 == bytes.len() && valid_utf8(
            smelted_item.unwrap().0,
        ) && flame_left.unwrap().0 <= u32::MAX && total_flame.unwrap().0 <= u32::MAX
            && smelt_progress.unwrap().0 <= u32::MAX && smelt_ticks.unwrap().0 <= u32::MAX {
            Some(
                FurnaceStateView {
                    flame_left: flame_left.unwrap().0 as u32,
                    total_flame: total_flame.unwrap().0 as u32,
                    smelt_progress: smelt_progress.unwrap().0 as u32,
                    smelt_ticks: smelt_ticks.unwrap().0 as u32,
                    smelted_item: decode_utf8(smelted_item.unwrap().0),
                },
            )
        } else {
            None
        }
    }

    /// Reading what was written gives the state back.
    #[verifier::rlimit(40)]
    pub proof fn lemma_encoding_parses(self)
        requires
            self.encodable(),
        ensures
            Self::parse(self.encoding()) == Some(self),
    {
        let name = encode_utf8(self.smelted_item);
        let f1 = int_field(0x08, self.flame_left as u64);
        let f2 = int_field(0x10, self.total_flame as u64);
        let f3 = int_field(0x18, self.smelt_progress as u64);
        let f4 = int_field(0x20, self.smelt_ticks as u64);
        let f5 = bytes_field(0x2a, name);
        let bytes = self.encoding();
        let n1 = f1.len() as int;
        let n2 = f2.len() as int;
        let n3 = f3.len() as int;
        let n4 = f4.len() as int;
        let n5 = f5.len() as int;
        assert(parse_int_field(0x08, bytes) == Some((self.flame_left as u64, n1))) by {
            assert(bytes =~= f1 + (f2 + f3 + f4 + f5));
            lemma_int_field_parses(0x08, self.flame_left as u64, f2 + f3 + f4 + f5);
        }
        assert(parse_int_field(0x10, bytes.skip(n1)) == Some((self.total_flame as u64, n2))) by {
            assert(bytes.skip(n1) =~= f2 + (f3 + f4 + f5));
            lemma_int_field_parses(0x10, self.total_flame as u64, f3 + f4 + f5);
        }
        assert(parse_int_field(0x18, bytes.skip(n1 + n2)) == Some(
            (self.smelt_progress as u64, n3),
        )) by {
            assert(bytes.skip(n1 + n2) =~= f3 + (f4 + f5));
            lemma_int_field_parses(0x18, self.smelt_progress as u64, f4 + f5);
        }
        assert(parse_int_field(0x20, bytes.skip(n1 + n2 + n3)) == Some(
            (self.smelt_ticks as u64, n4),
        )) by {
            assert(bytes.skip(n1 + n2 + n3) =~= f4 + f5);
            lemma_int_field_parses(0x20, self.smelt_ticks as u64, f5);
        }
        assert(parse_bytes_field(0x2a, bytes.skip(n1 + n2 + n3 + n4)) == Some((name, n5))) by {
            assert(bytes.skip(n1 + n2 + n3 + n4) =~= f5 + Seq::<u8>::empty());
            lemma_bytes_field_parses(0x2a, name, Seq::empty());
        }
        assert(n1 + n2 + n3 + n4 + n5 == bytes.len());
        encode_utf8_valid_utf8(self.smelted_item);
        encode_utf8_decode_utf8(self.smelted_item);
        assert(Self::parse(bytes) == Some(self)) by {
            reveal(FurnaceStateView::parse);
        }
    }

    /// What was read is written as the bytes it was read from.
    #[verifier::rlimit(40)]
    pub proof fn lemma_parsed_encoding(bytes: Seq<u8>)
        ensures
            Self::parse(bytes) matches Some(state) ==> state.encoding() == bytes
                && state.encodable(),
    {
        if let Some(state) = Self::parse(bytes) {
            let p1 = parse_int_field(0x08, bytes);
            let n1 = p1.unwrap().1;
            let rest1 = bytes.skip(n1);
            let p2 = parse_int_field(0x10, rest1);
            let n2 = p2.unwrap().1;
            let rest2 = bytes.skip(n1 + n2);
            let p3 = parse_int_field(0x18, rest2);
            let n3 = p3.unwrap().1;
            let rest3 = bytes.skip(n1 + n2 + n3);
            let p4 = parse_int_field(0x20, rest3);
            let n4 = p4.unwrap().1;
            let rest4 = bytes.skip(n1 + n2 + n3 + n4);
            let p5 = parse_bytes_field(0x2a, rest4);
            let n5 = p5.unwrap().1;
            let name = p5.unwrap().0;
            assert({
                &&& p1 is Some && p2 is Some && p3 is Some && p4 is Some && p5 is Some
                &&& n1 + n2 + n3 + n4 + n5 == bytes.len()
                &&& valid_utf8(name)
                &&& state.flame_left == p1.unwrap().0
                &&& state.total_flame == p2.unwrap().0
                &&& state.smelt_progress == p3.unwrap().0
                &&& state.smelt_ticks == p4.unwrap().0
                &&& state.smelted_item == decode_utf8(name)
            }) by {
                reveal(FurnaceStateView::parse);
            }
            lemma_parsed_int_field(0x08, bytes);
            lemma_parsed_int_field(0x10, rest1);
            lemma_parsed_int_field(0x18, rest2);
            lemma_parsed_int_field(0x20, rest3);
            lemma_parsed_bytes_field(0x2a, rest4);
            decode_utf8_encode_utf8(name);
            lemma_five_pieces(bytes, n1, n2, n3, n4, n5);
        }
    }
}

impl FurnaceState {
    /// The bytes of the state.
    pub fn encode_to_vec(&self) -> (bytes: Vec<u8>)
        ensures
            bytes@ == self@.encoding(),
            self@.encodable(),
    {
        let mut bytes: Vec<u8> = Vec::new();
        write_int_field(0x08, self.flame_left as u64, &mut bytes);
        write_int_field(0x10, self.total_flame as u64, &mut bytes);
        write_int_field(0x18, self.smelt_progress as u64, &mut bytes);
        write_int_field(0x20, self.smelt_ticks as u64, &mut bytes);
        write_bytes_field(0x2a, self.smelted_item.as_str().as_bytes(), &mut bytes);
        assert(bytes@ =~= self@.encoding());
        bytes
    }

    /// The state that `buf` holds. The bytes of a state are accepted, and
    /// nothing else.
    pub fn decode(buf: &[u8]) -> (result: Result<FurnaceState, DecodeError>)
        ensures
            match result {
                Ok(state) => FurnaceStateView::parse(buf@) == Some(state@) && state@.encoding()
                    == buf@,
                Err(_) => FurnaceStateView::parse(buf@) is None && forall|v: FurnaceStateView|
                    v.encodable() ==> #[trigger] v.encoding() != buf@,
            },
    {
        proof {
            FurnaceStateView::lemma_parsed_encoding(buf@);
            assert forall|v: FurnaceStateView|
                v.encodable() && #[trigger] v.encoding() == buf@ implies FurnaceStateView::parse(
                buf@,
            ) == Some(v) by {
                v.lemma_encoding_parses();
            }
        }
        match Self::read(buf) {
            Some(state) => Ok(state),
            None => Err(DecodeError),
        }
    }

    /// Reads the state that `buf` holds.
    #[verifier::rlimit(40)]
    fn read(buf: &[u8]) -> (result: Option<FurnaceState>)
        ensures
            match result {
                Some(state) => FurnaceStateView::parse(buf@) == Some(state@),
                None => FurnaceStateView::parse(buf@) is None,
            },
    {
        assert(buf@.skip(0) =~= buf@);
        let (flame_left, pos1) = match read_int_field(buf, 0, 0x08) {
            Some(found) => found,
            None => {
                assert(FurnaceStateView::parse(buf@) is None) by {
                    reveal(FurnaceStateView::parse);
                }
                return None;
            },
        };
        let (total_flame, pos2) = match read_int_field(buf, pos1, 0x10) {
            Some(found) => found,
            None => {
                assert(FurnaceStateView::parse(buf@) is None) by {
                    reveal(FurnaceStateView::parse);
                }
                return None;
            },
        };
        let (smelt_progress, pos3) = match read_int_field(buf, pos2, 0x18) {
            Some(found) => found,
            None => {
                assert(FurnaceStateView::parse(buf@) is None) by {
                    reveal(FurnaceStateView::parse);
                }
                return None;
            },
        };
        let (smelt_ticks, pos4) = match read_int_field(buf, pos3, 0x20) {
            Some(found) => found,
            None => {
                assert(FurnaceStateView::parse(buf@) is None) by {
                    reveal(FurnaceStateView::parse);
                }
                return None;
            },
        };
        let (name_start, pos5) = match read_bytes_field(buf, pos4, 0x2a) {
            Some(found) => found,
            None => {
                assert(FurnaceStateView::parse(buf@) is None) by {
                    reveal(FurnaceStateView::parse);
                }
                return None;
            },
        };
        if pos5 != buf.len() || flame_left > u32::MAX as u64 || total_flame > u32::MAX as u64
            || smelt_progress > u32::MAX as u64 || smelt_ticks > u32::MAX as u64 {
            assert(FurnaceStateView::parse(buf@) is None) by {
                reveal(FurnaceStateView::parse);
            }
            return None;
        }
        let smelted_item = match string_from_utf8(
            bytes_to_vec(slice_subrange(buf, name_start, pos5)),
        ) {
            Some(name) => name,
            None => {
                assert(FurnaceStateView::parse(buf@) is None) by {
                    reveal(FurnaceStateView::parse);
                }
                return None;
            },
        };
        let state = FurnaceState {
            flame_left: flame_left as u32,
            total_flame: total_flame as u32,
            smelt_progress: smelt_progress as u32,
            smelt_ticks: smelt_ticks as u32,
            smelted_item,
        };
        assert(FurnaceStateView::parse(buf@) == Some(state@)) by {
            reveal(FurnaceStateView::parse);
        }
        Some(state)
    }
}

/// The state of a furnace that the given bytes hold.
pub fn furnace_deserialize(data: &[u8]) -> (result: Result<FurnaceState, DecodeError>)
    ensures
        match result {
            Ok(state) => state@.encoding() == data@,
            Err(_) => forall|v: FurnaceStateView| v.encodable() ==> #[trigger] v.encoding() != data@,
        },
{
    FurnaceState::decode(data)
}

/// The bytes that are kept of the state of a furnace.
pub fn furnace_serialize(state: &FurnaceState) -> (bytes: Vec<u8>)
    ensures
        bytes@ == state@.encoding(),
{
    state.encode_to_vec()
}

/// The kind of block that stands somewhere, and which of its variants.
#[derive(Clone, Copy, Debug, PartialEq, Eq, Structural)]
pub struct BlockTypeHandle {
    /// The kind of block.
    pub kind: u32,
    /// The variant of the block, such as the way it faces.
    pub variant: u16,
}

impl BlockTypeHandle {
    /// Whether the two are the same kind of block, whatever their variants.
    pub fn equals_ignore_variant(&self, other: BlockTypeHandle) -> (same: bool)
        ensures
            same == (self.kind == other.kind),
    {
        self.kind == other.kind
    }

    /// This kind of block in the given variant.
    pub fn with_variant(&self, variant: u16) -> (block: BlockTypeHandle)
        ensures
            block == (BlockTypeHandle { kind: self.kind, variant }),
    {
        BlockTypeHandle { kind: self.kind, variant }
    }

    /// The variant of the block.
    pub fn variant(&self) -> (variant: u16)
        ensures
            variant == self.variant,
    {
        self.variant
    }
}

/// What a fuel gives: the recipe that matches what lies in the fuel slot.
#[derive(Clone, Copy, Debug, PartialEq, Eq, Structural)]
pub struct FuelRecipe {
    /// How many items of the fuel are burned at once.
    pub quantity: u32,
    /// For how many ticks they burn.
    pub burn_ticks: u32,
}

/// What smelting gives: the recipe that matches what lies in the input slot.
pub struct SmeltRecipeView {
    pub quantity: u32,
    pub smelt_ticks: u32,
    pub result: ItemStackView,
}

/// What smelting gives: the recipe that matches what lies in the input slot.
pub struct SmeltRecipe {
    /// How many items of the input are smelted at once.
    pub quantity: u32,
    /// How many ticks that takes.
    pub smelt_ticks: u32,
    /// What comes out.
    pub result: ItemStack,
}

impl View for SmeltRecipe {
    type V = SmeltRecipeView;

    open spec fn view(&self) -> SmeltRecipeView {
        SmeltRecipeView {
            quantity: self.quantity,
            smelt_ticks: self.smelt_ticks,
            result: self.result@,
        }
    }
}

/// The recipes that match the slots of a furnace at the start of a tick.
pub struct FurnaceRecipesView {
    pub fuel: Option<FuelRecipe>,
    pub input: Option<SmeltRecipeView>,
    pub input_after: Option<SmeltRecipeView>,
}

/// The recipes that match the slots of a furnace at the start of a tick.
pub struct FurnaceRecipes {
    /// The recipe that matches the fuel slot.
    pub fuel: Option<FuelRecipe>,
    /// The recipe that matches the input slot.
    pub input: Option<SmeltRecipe>,
    /// The recipe that matches the input slot once the items of one round of
    /// smelting are taken out of it.
    pub input_after: Option<SmeltRecipe>,
}

impl View for FurnaceRecipes {
    type V = FurnaceRecipesView;

    open spec fn view(&self) -> FurnaceRecipesView {
        FurnaceRecipesView {
            fuel: self.fuel,
            input: match self.input {
                Some(recipe) => Some(recipe@),
                None => None,
            },
            input_after: match self.input_after {
                Some(recipe) => Some(recipe@),
                None => None,
            },
        }
    }
}

/// A furnace: its block, what it keeps between ticks, and its three slots.
pub struct Furnace {
    pub block: BlockTypeHandle,
    pub state: FurnaceStateView,
    pub input: Option<ItemStackView>,
    pub output: Option<ItemStackView>,
    pub fuel: Option<ItemStackView>,
}

/// A furnace after a step, and whether the step changed what has to be kept.
pub struct Ticked {
    pub furnace: Furnace,
    pub dirty: bool,
    /// Whether the tick ends with this step.
    pub done: bool,
}

/// The blocks of a furnace: the one that stands while it is cold, and the
/// one that stands while it burns.
pub struct FurnaceTimerCallback {
    pub furnace_off_handle: BlockTypeHandle,
    pub furnace_on_handle: BlockTypeHandle,
}

/// The name of the item in a slot; empty for an empty slot.
pub open spec fn slot_name(slot: Option<ItemStackView>) -> Seq<char> {
    match slot {
        Some(stack) => stack.item_name,
        None => Seq::empty(),
    }
}

impl FurnaceTimerCallback {
    /// The block after the furnace was shown as burning: a cold furnace
    /// becomes a burning one of the same variant.
    pub open spec fn shown_on(&self, block: BlockTypeHandle) -> BlockTypeHandle {
        if block.kind == self.furnace_off_handle.kind {
            BlockTypeHandle { kind: self.furnace_on_handle.kind, variant: block.variant }
        } else {
            block
        }
    }

    /// The block after the furnace was shown as cold: a burning furnace
    /// becomes a cold one of the same variant.
    pub open spec fn shown_off(&self, block: BlockTypeHandle) -> BlockTypeHandle {
        if block.kind == self.furnace_on_handle.kind {
            BlockTypeHandle { kind: self.furnace_off_handle.kind, variant: block.variant }
        } else {
            block
        }
    }

    /// The first half of a tick: the flame. A furnace without flame is lit
    /// if its fuel slot and its input slot both match a recipe and the fuel
    /// slot gives the fuel that its recipe asks for, and is shut down if one
    /// of the slots matches none. A furnace with flame burns for one tick.
    pub open spec fn burn(&self, furnace: Furnace, recipes: FurnaceRecipesView) -> Ticked {
        if furnace.state.flame_left == 0 {
            if recipes.fuel is Some && recipes.input is Some {
                let taken = take_all_from_slot(furnace.fuel, Some(recipes.fuel.unwrap().quantity));
                if taken.out is Some {
                    Ticked {
                        furnace: Furnace {
                            block: self.shown_on(furnace.block),
                            state: FurnaceStateView {
                                flame_left: recipes.fuel.unwrap().burn_ticks,
                                ..furnace.state
                            },
                            fuel: taken.slot,
                            ..furnace
                        },
                        dirty: true,
                        done: false,
                    }
                } else {
                    Ticked { furnace, dirty: false, done: false }
                }
            } else {
                Ticked {
                    furnace: Furnace {
                        block: self.shown_off(furnace.block),
                        state: FurnaceStateView { smelt_progress: 0, ..furnace.state },
                        ..furnace
                    },
                    dirty: furnace.block.kind == self.furnace_on_handle.kind
                        || furnace.state.smelt_progress > 0,
                    done: false,
                }
            }
        } else {
            Ticked {
                furnace: Furnace {
                    block: self.shown_on(furnace.block),
                    state: FurnaceStateView {
                        flame_left: (furnace.state.flame_left - 1) as u32,
                        ..furnace.state
                    },
                    ..furnace
                },
                dirty: furnace.block.kind == self.furnace_off_handle.kind,
                done: false,
            }
        }
    }

    /// A furnace that gave up what it was smelting.
    pub open spec fn idle(furnace: Furnace) -> Ticked {
        Ticked {
            furnace: Furnace {
                state: FurnaceStateView {
                    smelt_progress: 0,
                    smelted_item: Seq::empty(),
                    ..furnace.state
                },
                ..furnace
            },
            dirty: false,
            done: true,
        }
    }

    /// The end of a round of smelting: where the input slot still gives the
    /// items of a round and the output slot takes the result whole, the
    /// result goes into the output slot and the items leave the input slot.
    pub open spec fn finish_round(furnace: Furnace, recipes: FurnaceRecipesView) -> Ticked {
        match recipes.input {
            None => Self::idle(furnace),
            Some(recipe) => if slot_quantity(furnace.input) < recipe.quantity
                || furnace.input is None {
                Self::idle(furnace)
            } else if fits_slot(furnace.output, Some(recipe.result)) {
                let emptied = Furnace {
                    output: merge_slot(furnace.output, Some(recipe.result)).slot,
                    input: take_all_from_slot(furnace.input, Some(recipe.quantity)).slot,
                    state: FurnaceStateView { smelt_progress: 0, ..furnace.state },
                    ..furnace
                };
                match recipes.input_after {
                    Some(next) => Ticked {
                        furnace: Furnace {
                            state: FurnaceStateView {
                                smelt_ticks: next.smelt_ticks,
                                ..emptied.state
                            },
                            ..emptied
                        },
                        dirty: true,
                        done: true,
                    },
                    None => Ticked {
                        furnace: Furnace {
                            state: FurnaceStateView {
                                smelted_item: Seq::empty(),
                                ..emptied.state
                            },
                            ..emptied
                        },
                        dirty: false,
                        done: true,
                    },
                }
            } else {
                Ticked { furnace, dirty: true, done: true }
            },
        }
    }

    /// The second half of a tick: the smelting. Where the input slot holds
    /// another item than the one that is being smelted, smelting starts over
    /// with the item of the slot, if a recipe matches it. Where it holds the
    /// same item and the furnace had flame when the tick began, smelting goes
    /// on by one tick, and a round ends once it has gone on for as many ticks
    /// as the recipe says.
    pub open spec fn smelt(
        furnace: Furnace,
        had_flame: bool,
        dirty: bool,
        recipes: FurnaceRecipesView,
    ) -> Ticked {
        if furnace.state.smelted_item != slot_name(furnace.input) {
            match recipes.input {
                Some(recipe) => Ticked {
                    furnace: Furnace {
                        state: FurnaceStateView {
                            smelt_progress: 0,
                            smelt_ticks: recipe.smelt_ticks,
                            smelted_item: slot_name(furnace.input),
                            ..furnace.state
                        },
                        ..furnace
                    },
                    dirty: true,
                    done: true,
                },
                None => Self::idle(furnace),
            }
        } else if had_flame && furnace.state.smelted_item.len() > 0 {
            let progress = if furnace.state.smelt_progress == u32::MAX {
                u32::MAX
            } else {
                (furnace.state.smelt_progress + 1) as u32
            };
            let advanced = Furnace {
                state: FurnaceStateView { smelt_progress: progress, ..furnace.state },
                ..furnace
            };
            if progress >= furnace.state.smelt_ticks {
                Self::finish_round(advanced, recipes)
            } else {
                Ticked { furnace: advanced, dirty: true, done: true }
            }
        } else {
            Ticked { furnace, dirty, done: true }
        }
    }

    /// A whole tick: the flame, then the smelting.
    pub open spec fn tick(&self, furnace: Furnace, recipes: FurnaceRecipesView) -> Ticked {
        Self::smelt(
            self.burn(furnace, recipes).furnace,
            furnace.state.flame_left > 0,
            self.burn(furnace, recipes).dirty,
            recipes,
        )
    }

    /// Shuts the furnace down: it is shown as cold, and what was smelted so
    /// far is lost. Returns whether anything changed.
    pub fn shut_down_furnace(&self, block_type: &mut BlockTypeHandle, state: &mut FurnaceState) -> (dirty:
        bool)
        ensures
            *final(block_type) == self.shown_off(*old(block_type)),
            final(state)@ == (FurnaceStateView { smelt_progress: 0, ..old(state)@ }),
            dirty == (old(block_type).kind == self.furnace_on_handle.kind || old(
                state,
            ).smelt_progress > 0),
    {
        let dirty_from_blocktype = if block_type.equals_ignore_variant(self.furnace_on_handle) {
            *block_type = self.furnace_off_handle.with_variant(block_type.variant());
            true
        } else {
            false
        };
        let dirty_from_state = if state.smelt_progress > 0 {
            state.smelt_progress = 0;
            true
        } else {
            false
        };
        dirty_from_blocktype || dirty_from_state
    }

    /// Shows the furnace as burning. Returns whether anything changed.
    pub fn set_appearance_on(&self, block_type: &mut BlockTypeHandle) -> (dirty: bool)
        ensures
            *final(block_type) == self.shown_on(*old(block_type)),
            dirty == (old(block_type).kind == self.furnace_off_handle.kind),
    {
        if block_type.equals_ignore_variant(self.furnace_off_handle) {
            *block_type = self.furnace_on_handle.with_variant(block_type.variant());
            true
        } else {
            false
        }
    }

    /// One tick of a furnace. Returns whether what is kept of the furnace
    /// has to be written again.
    pub fn inline_callback(
        &self,
        block_type: &mut BlockTypeHandle,
        state: &mut FurnaceState,
        input_stack: &mut Option<ItemStack>,
        output_stack: &mut Option<ItemStack>,
        fuel_stack: &mut Option<ItemStack>,
        recipes: &FurnaceRecipes,
    ) -> (dirty: bool)
        ensures
            (Ticked {
                furnace: Furnace {
                    block: *final(block_type),
                    state: final(state)@,
                    input: final(input_stack).deep_view(),
                    output: final(output_stack).deep_view(),
                    fuel: final(fuel_stack).deep_view(),
                },
                dirty,
                done: true,
            }) == self.tick(
                Furnace {
                    block: *old(block_type),
                    state: old(state)@,
                    input: old(input_stack).deep_view(),
                    output: old(output_stack).deep_view(),
                    fuel: old(fuel_stack).deep_view(),
                },
                recipes@,
            ),
    {
        let mut set_dirty = false;
        let prev_flame = state.flame_left;
        if state.flame_left == 0 {
            // Try to light the furnace, if we have both a valid fuel and a valid input
            match (&recipes.fuel, &recipes.input) {
                (Some(fueling_recipe), Some(_)) => {
                    if fuel_stack.try_take_all(Some(fueling_recipe.quantity)).is_some() {
                        state.flame_left = fueling_recipe.burn_ticks;
                        set_dirty = true;
                        self.set_appearance_on(block_type);
                    }
                },
                _ => {
                    if self.shut_down_furnace(block_type, state) {
                        set_dirty = true;
                    }
                },
            }
        } else {
            state.flame_left = state.flame_left - 1;
            if self.set_appearance_on(block_type) {
                set_dirty = true;
            }
        }
        let current_input = match input_stack {
            Some(stack) => stack.proto.item_name.clone(),
            None => String::new(),
        };
        if !(state.smelted_item == current_input) {
            state.smelt_progress = 0;
            // Check if we have a recipe for this input
            match &recipes.input {
                Some(recipe) => {
                    state.smelt_ticks = recipe.smelt_ticks;
                },
                None => {
                    state.smelted_item = String::new();
                    return false;
                },
            }
            state.smelted_item = current_input;
            true
        } else if prev_flame > 0 && !state.smelted_item.as_str().is_empty() {
            // We're still smelting the same item
            state.smelt_progress = state.smelt_progress.saturating_add(1);
            if state.smelt_progress >= state.smelt_ticks {
                let recipe = match &recipes.input {
                    Some(recipe) => recipe,
                    None => {
                        state.smelted_item = String::new();
                        state.smelt_progress = 0;
                        return false;
                    },
                };
                let can_take_input = match input_stack {
                    Some(stack) => stack.proto.quantity >= recipe.quantity,
                    None => false,
                };
                if !can_take_input {
                    // The input item got taken away
                    state.smelted_item = String::new();
                    state.smelt_progress = 0;
                    return false;
                } else if output_stack.try_merge_all(Some(recipe.result.clone())) {
                    let _ = input_stack.try_take_all(Some(recipe.quantity));
                    state.smelt_progress = 0;
                    // The recipe of the input is looked at again: the input slot may have run out
                    match &recipes.input_after {
                        Some(next) => {
                            state.smelt_ticks = next.smelt_ticks;
                        },
                        None => {
                            state.smelted_item = String::new();
                            return false;
                        },
                    }
                }
            }
            true
        } else {
            set_dirty
        }
    }
}

/// Whether a furnace may be dug up: none of its inventories holds anything.
pub open spec fn all_empty(inventories: Seq<Inventory>) -> bool {
    forall|i: int, k: int|
        0 <= i < inventories.len() && 0 <= k < inventories[i]@.len() ==> (
        #[trigger] inventories[i]@[k]) is None
}

/// Digs a furnace up, unless one of its inventories holds something: the
/// block becomes air, and the furnace is handed out as an item. Returns the
/// items that are handed out; the furnace has been dug up if there are any.
pub fn furnace_dig_handler(
    bt: &mut BlockTypeHandle,
    air: BlockTypeHandle,
    inventories: &Vec<Inventory>,
    furnace_item: ItemStack,
) -> (drops: Vec<ItemStack>)
    ensures
        if all_empty(inventories@) {
            *final(bt) == air && drops.deep_view() == seq![furnace_item@]
        } else {
            *final(bt) == *old(bt) && drops@.len() == 0
        },
{
    let mut i: usize = 0;
    while i < inventories.len()
        invariant
            i <= inventories.len(),
            forall|a: int, k: int|
                0 <= a < i && 0 <= k < inventories@[a]@.len() ==> (#[trigger] inventories@[a]@[k])
                    is None,
        decreases inventories.len() - i,
    {
        let slots = inventories[i].contents();
        let mut k: usize = 0;
        while k < slots.len()
            invariant
                i < inventories.len(),
                k <= slots.len(),
                slots.deep_view() == inventories@[i as int]@,
                forall|a: int, b: int|
                    0 <= a < i && 0 <= b < inventories@[a]@.len() ==> (
                    #[trigger] inventories@[a]@[b]) is None,
                forall|b: int| 0 <= b < k ==> (#[trigger] inventories@[i as int]@[b]) is None,
            decreases slots.len() - k,
        {
            assert(slots.deep_view()[k as int] == slots@[k as int].deep_view());
            if slots[k].is_some() {
                // One of the inventories is non-empty. Refuse to dig the furnace.
                assert(inventories@[i as int]@[k as int] is Some);
                return Vec::new();
            }
            k = k + 1;
        }
        i = i + 1;
    }
    *bt = air;
    let mut drops: Vec<ItemStack> = Vec::new();
    drops.push(furnace_item);
    assert(drops.deep_view() =~= seq![furnace_item@]);
    drops
}

} // verus!
