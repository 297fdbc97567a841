//! The records that are persisted or exchanged, as plain data.

use crate::wire::{
    bytes_field, bytes_to_vec, fixed64_field, int_field, lemma_fixed64_field_parses,
    lemma_four_pieces, lemma_three_pieces,
    lemma_parsed_fixed64_field, parse_fixed64_field, read_fixed64_field, write_fixed64_field, lemma_bytes_field_parses, lemma_int_field_parses,
    lemma_len_field_parses, lemma_parsed_bytes_field, lemma_parsed_int_field,
    lemma_parsed_len_field, len_field, parse_bytes_field, parse_int_field, parse_len_field,
    read_bytes_field, read_int_field, read_len_field, starts_with, string_from_utf8,
    write_bytes_field, write_int_field, write_len_field,
};
use vstd::prelude::*;
use vstd::slice::slice_subrange;
use vstd::utf8::{
    decode_utf8, decode_utf8_encode_utf8, encode_utf8, encode_utf8_decode_utf8,
    encode_utf8_valid_utf8, valid_utf8,
};

verus! {

/// The bytes of a record are not in the form in which records are written.
#[derive(Clone, Copy, Debug, PartialEq, Eq, Structural)]
pub struct DecodeError;

/// What an [`ItemStack`] record holds, as mathematical values.
pub struct ItemStackView {
    pub item_name: Seq<char>,
    pub quantity: u32,
    pub max_stack: u32,
    pub stackable: bool,
}

/// A stack of items. An empty `item_name` stands for "no item" wherever a
/// fixed-length list of slots has to represent an empty slot.
#[derive(Debug)]
pub struct ItemStack {
    pub item_name: String,
    pub quantity: u32,
    pub max_stack: u32,
    pub stackable: bool,
}

impl View for ItemStack {
    type V = ItemStackView;

    open spec fn view(&self) -> ItemStackView {
        ItemStackView {
            item_name: self.item_name@,
            quantity: self.quantity,
            max_stack: self.max_stack,
            stackable: self.stackable,
        }
    }
}

impl DeepView for ItemStack {
    type V = ItemStackView;

    open spec fn deep_view(&self) -> ItemStackView {
        self@
    }
}

impl Clone for ItemStack {
    fn clone(&self) -> (copy: Self)
        ensures
            copy == *self,
    {
        ItemStack {
            item_name: self.item_name.clone(),
            quantity: self.quantity,
            max_stack: self.max_stack,
            stackable: self.stackable,
        }
    }
}

impl ItemStackView {
    /// The record that stands for an empty slot.
    pub open spec fn empty() -> ItemStackView {
        ItemStackView { item_name: Seq::empty(), quantity: 0, max_stack: 0, stackable: false }
    }

    /// Whether the record can be written: the length of its name fits the
    /// length prefix. Every record that is held in memory can.
    pub open spec fn encodable(self) -> bool {
        encode_utf8(self.item_name).len() <= u64::MAX
    }

    /// The bytes of the record: its name in UTF-8 as field 1, its quantity as
    /// field 2, its stack limit as field 3, and whether it stacks as field 4.
    pub open spec fn encoding(self) -> Seq<u8> {
        bytes_field(0x0a, encode_utf8(self.item_name)) + int_field(0x10, self.quantity as u64)
            + int_field(0x18, self.max_stack as u64) + int_field(
            0x20,
            if self.stackable {
                1
            } else {
                0
            },
        )
    }

    /// The record that `bytes` hold, if they are the bytes of one: the four
    /// fields are read one after the other, and have to be all there is.
    #[verifier::opaque]
    pub open spec fn parse(bytes: Seq<u8>) -> Option<ItemStackView> {
        let name = parse_bytes_field(0x0a, bytes);
        let n1 = name.unwrap().1;
        let quantity = parse_int_field(0x10, bytes.skip(n1));
        let n2 = n1 + quantity.unwrap().1;
        let max_stack = parse_int_field(0x18, bytes.skip(n2));
        let n3 = n2 + max_stack.unwrap().1;
        let stackable = parse_int_field(0x20, bytes.skip(n3));
        let n4 = n3 + stackable.unwrap().1;
        if name is Some && quantity is Some && max_stack is Some && stackable is Some && n4
            == bytes.len() && valid_utf8(name.unwrap().0) && quantity.unwrap().0 <= u32::MAX
            && max_stack.unwrap().0 <= u32::MAX && stackable.unwrap().0 <= 1 {
            Some(
                ItemStackView {
                    item_name: decode_utf8(name.unwrap().0),
                    quantity: quantity.unwrap().0 as u32,
                    max_stack: max_stack.unwrap().0 as u32,
                    stackable: stackable.unwrap().0 == 1,
                },
            )
        } else {
            None
        }
    }

    /// Reading what was written gives the record back.
    #[verifier::rlimit(40)]
    pub proof fn lemma_encoding_parses(self)
        requires
            self.encodable(),
        ensures
            Self::parse(self.encoding()) == Some(self),
    {
        let name = encode_utf8(self.item_name);
        let f1 = bytes_field(0x0a, name);
        let f2 = int_field(0x10, self.quantity as u64);
        let f3 = int_field(0x18, self.max_stack as u64);
        let flag: u64 = if self.stackable {
            1
        } else {
            0
        };
        let f4 = int_field(0x20, flag);
        let bytes = self.encoding();
        let n1 = f1.len() as int;
        let n2 = f2.len() as int;
        let n3 = f3.len() as int;
        let n4 = f4.len() as int;
        assert(parse_bytes_field(0x0a, bytes) == Some((name, n1))) by {
            assert(bytes =~= f1 + (f2 + f3 + f4));
            lemma_bytes_field_parses(0x0a, name, f2 + f3 + f4);
        }
        assert(parse_int_field(0x10, bytes.skip(n1)) == Some((self.quantity as u64, n2))) by {
            assert(bytes.skip(n1) =~= f2 + (f3 + f4));
            lemma_int_field_parses(0x10, self.quantity as u64, f3 + f4);
        }
        assert(parse_int_field(0x18, bytes.skip(n1 + n2)) == Some((self.max_stack as u64, n3))) by {
            assert(bytes.skip(n1 + n2) =~= f3 + f4);
            lemma_int_field_parses(0x18, self.max_stack as u64, f4);
        }
        assert(parse_int_field(0x20, bytes.skip(n1 + n2 + n3)) == Some((flag, n4))) by {
            assert(bytes.skip(n1 + n2 + n3) =~= f4 + Seq::<u8>::empty());
            lemma_int_field_parses(0x20, flag, Seq::empty());
        }
        assert(n1 + n2 + n3 + n4 == bytes.len());
        encode_utf8_valid_utf8(self.item_name);
        encode_utf8_decode_utf8(self.item_name);
        assert(Self::parse(bytes) == Some(self)) by {
            reveal(ItemStackView::parse);
        }
    }

    /// What was read is written as the bytes it was read from.
    #[verifier::rlimit(40)]
    pub proof fn lemma_parsed_encoding(bytes: Seq<u8>)
        ensures
            Self::parse(bytes) matches Some(record) ==> record.encoding() == bytes
                && record.encodable(),
    {
        if let Some(record) = Self::parse(bytes) {
            let p1 = parse_bytes_field(0x0a, bytes);
            let name = p1.unwrap().0;
            let n1 = p1.unwrap().1;
            let rest1 = bytes.skip(n1);
            let p2 = parse_int_field(0x10, rest1);
            let n2 = p2.unwrap().1;
            let rest2 = bytes.skip(n1 + n2);
            let p3 = parse_int_field(0x18, rest2);
            let n3 = p3.unwrap().1;
            let rest3 = bytes.skip(n1 + n2 + n3);
            let p4 = parse_int_field(0x20, rest3);
            let n4 = p4.unwrap().1;
            assert({
                &&& p1 is Some && p2 is Some && p3 is Some && p4 is Some
                &&& n1 + n2 + n3 + n4 == bytes.len()
                &&& valid_utf8(name)
                &&& record.item_name == decode_utf8(name)
                &&& record.quantity == p2.unwrap().0
                &&& record.max_stack == p3.unwrap().0
                &&& p4.unwrap().0 == (if record.stackable {
                    1u64
                } else {
                    0u64
                })
            }) by {
                reveal(ItemStackView::parse);
            }
            lemma_parsed_bytes_field(0x0a, bytes);
            lemma_parsed_int_field(0x10, rest1);
            lemma_parsed_int_field(0x18, rest2);
            lemma_parsed_int_field(0x20, rest3);
            decode_utf8_encode_utf8(name);
            lemma_four_pieces(bytes, n1, n2, n3, n4);
        }
    }
}

/// Records with the same bytes are the same record.
pub proof fn lemma_item_stack_encoding_is_injective(a: ItemStackView, b: ItemStackView)
    requires
        a.encodable(),
        b.encodable(),
        a.encoding() == b.encoding(),
    ensures
        a == b,
{
    a.lemma_encoding_parses();
    b.lemma_encoding_parses();
}

impl ItemStack {
    /// The bytes of the record.
    pub fn encode_to_vec(&self) -> (bytes: Vec<u8>)
        ensures
            bytes@ == self@.encoding(),
            self@.encodable(),
    {
        let mut bytes: Vec<u8> = Vec::new();
        self.encode(&mut bytes);
        assert(bytes@ =~= self@.encoding());
        bytes
    }

    /// Appends the bytes of the record to `buf`.
    pub fn encode(&self, buf: &mut Vec<u8>)
        ensures
            final(buf)@ == old(buf)@ + self@.encoding(),
            self@.encodable(),
    {
        write_bytes_field(0x0a, self.item_name.as_str().as_bytes(), buf);
        write_int_field(0x10, self.quantity as u64, buf);
        write_int_field(0x18, self.max_stack as u64, buf);
        write_int_field(
            0x20,
            if self.stackable {
                1
            } else {
                0
            },
            buf,
        );
        assert(buf@ =~= old(buf)@ + self@.encoding());
    }

    /// The record that `buf` holds. The bytes of a record are accepted, and
    /// nothing else.
    pub fn decode(buf: &[u8]) -> (result: Result<ItemStack, DecodeError>)
        ensures
            match result {
                Ok(record) => ItemStackView::parse(buf@) == Some(record@) && record@.encoding()
                    == buf@,
                Err(_) => ItemStackView::parse(buf@) is None && forall|v: ItemStackView|
                    v.encodable() ==> #[trigger] v.encoding() != buf@,
            },
    {
        proof {
            ItemStackView::lemma_parsed_encoding(buf@);
            assert forall|v: ItemStackView|
                v.encodable() && #[trigger] v.encoding() == buf@ implies ItemStackView::parse(buf@)
                == Some(v) by {
                v.lemma_encoding_parses();
            }
        }
        match Self::read(buf) {
            Some(record) => Ok(record),
            None => Err(DecodeError),
        }
    }

    /// Reads the record that `buf` holds.
    #[verifier::rlimit(40)]
    fn read(buf: &[u8]) -> (result: Option<ItemStack>)
        ensures
            result.deep_view() == ItemStackView::parse(buf@),
    {
        assert(buf@.skip(0) =~= buf@);
        let (name_start, pos1) = match read_bytes_field(buf, 0, 0x0a) {
            Some(found) => found,
            None => {
                assert(ItemStackView::parse(buf@) is None) by {
                    reveal(ItemStackView::parse);
                }
                return None;
            },
        };
        let (quantity, pos2) = match read_int_field(buf, pos1, 0x10) {
            Some(found) => found,
            None => {
                assert(ItemStackView::parse(buf@) is None) by {
                    reveal(ItemStackView::parse);
                }
                return None;
            },
        };
        let (max_stack, pos3) = match read_int_field(buf, pos2, 0x18) {
            Some(found) => found,
            None => {
                assert(ItemStackView::parse(buf@) is None) by {
                    reveal(ItemStackView::parse);
                }
                return None;
            },
        };
        let (stackable, pos4) = match read_int_field(buf, pos3, 0x20) {
            Some(found) => found,
            None => {
                assert(ItemStackView::parse(buf@) is None) by {
                    reveal(ItemStackView::parse);
                }
                return None;
            },
        };
        if pos4 != buf.len() || quantity > u32::MAX as u64 || max_stack > u32::MAX as u64
            || stackable > 1 {
            assert(ItemStackView::parse(buf@) is None) by {
                reveal(ItemStackView::parse);
            }
            return None;
        }
        let name = match string_from_utf8(bytes_to_vec(slice_subrange(buf, name_start, pos1))) {
            Some(name) => name,
            None => {
                assert(ItemStackView::parse(buf@) is None) by {
                    reveal(ItemStackView::parse);
                }
                return None;
            },
        };
        let record = ItemStack {
            item_name: name,
            quantity: quantity as u32,
            max_stack: max_stack as u32,
            stackable: stackable == 1,
        };
        assert(ItemStackView::parse(buf@) == Some(record@)) by {
            reveal(ItemStackView::parse);
        }
        Some(record)
    }
}

/// The bytes of a list of slots: each slot's record as a field 3, in order.
pub open spec fn slots_encoding(slots: Seq<ItemStackView>) -> Seq<u8>
    decreases slots.len(),
{
    if slots.len() == 0 {
        Seq::empty()
    } else {
        len_field(0x1a, slots[0].encoding()) + slots_encoding(slots.drop_first())
    }
}

/// Whether a list of slots can be written: each record can, and the length
/// of its bytes fits the length prefix.
pub open spec fn slots_encodable(slots: Seq<ItemStackView>) -> bool {
    forall|i: int|
        0 <= i < slots.len() ==> (#[trigger] slots[i]).encodable() && slots[i].encoding().len()
            <= u64::MAX
}

/// The list of slots that `bytes` hold, if they are the bytes of one.
pub open spec fn parse_slots(bytes: Seq<u8>) -> Option<Seq<ItemStackView>>
    decreases bytes.len(),
{
    if bytes.len() == 0 {
        Some(Seq::empty())
    } else {
        match parse_len_field(0x1a, bytes) {
            Some((payload, n)) => if 0 < n <= bytes.len() {
                match (ItemStackView::parse(payload), parse_slots(bytes.skip(n))) {
                    (Some(first), Some(rest)) => Some(seq![first] + rest),
                    _ => None,
                }
            } else {
                None
            },
            None => None,
        }
    }
}

/// Reading the bytes of a list of slots gives the list back.
pub proof fn lemma_slots_encoding_parses(slots: Seq<ItemStackView>)
    requires
        slots_encodable(slots),
    ensures
        parse_slots(slots_encoding(slots)) == Some(slots),
    decreases slots.len(),
{
    if slots.len() > 0 {
        let first = slots[0];
        let rest = slots.drop_first();
        let bytes = slots_encoding(slots);
        let field = len_field(0x1a, first.encoding());
        assert(first.encodable() && first.encoding().len() <= u64::MAX);
        assert forall|i: int| 0 <= i < rest.len() implies (#[trigger] rest[i]).encodable()
            && rest[i].encoding().len() <= u64::MAX by {
            assert(rest[i] == slots[i + 1]);
        }
        lemma_len_field_parses(0x1a, first.encoding(), slots_encoding(rest));
        first.lemma_encoding_parses();
        assert(bytes.skip(field.len() as int) =~= slots_encoding(rest));
        lemma_slots_encoding_parses(rest);
        assert(seq![first] + rest =~= slots);
    }
}

/// A list of slots that was read is written as the bytes it was read from.
pub proof fn lemma_parsed_slots(bytes: Seq<u8>)
    ensures
        parse_slots(bytes) matches Some(slots) ==> slots_encoding(slots) == bytes
            && slots_encodable(slots),
    decreases bytes.len(),
{
    if bytes.len() > 0 {
        if let Some(slots) = parse_slots(bytes) {
            lemma_parsed_len_field(0x1a, bytes);
            let (payload, n) = parse_len_field(0x1a, bytes).unwrap();
            let first = ItemStackView::parse(payload).unwrap();
            let rest = parse_slots(bytes.skip(n)).unwrap();
            ItemStackView::lemma_parsed_encoding(payload);
            lemma_parsed_slots(bytes.skip(n));
            assert(slots == seq![first] + rest);
            assert(slots[0] == first);
            assert(slots.drop_first() =~= rest);
            assert(bytes =~= bytes.subrange(0, n) + bytes.skip(n));
            assert forall|i: int| 0 <= i < slots.len() implies (#[trigger] slots[i]).encodable()
                && slots[i].encoding().len() <= u64::MAX by {
                if i > 0 {
                    assert(slots[i] == rest[i - 1]);
                }
            }
        }
    } else {
        assert(slots_encoding(Seq::<ItemStackView>::empty()) =~= bytes);
    }
}

/// Writing one more slot appends its field.
pub proof fn lemma_slots_encoding_push(slots: Seq<ItemStackView>, last: ItemStackView)
    ensures
        slots_encoding(slots.push(last)) == slots_encoding(slots) + len_field(
            0x1a,
            last.encoding(),
        ),
    decreases slots.len(),
{
    let field = len_field(0x1a, last.encoding());
    if slots.len() == 0 {
        assert(slots.push(last).drop_first() =~= Seq::<ItemStackView>::empty());
        assert(slots.push(last)[0] == last);
        assert(slots_encoding(Seq::<ItemStackView>::empty()) =~= Seq::<u8>::empty());
        assert(slots_encoding(slots.push(last)) == field + slots_encoding(
            slots.push(last).drop_first(),
        ));
        assert(slots_encoding(slots) + field =~= field);
        assert(field + Seq::<u8>::empty() =~= field);
    } else {
        let rest = slots.drop_first();
        assert(slots.push(last).drop_first() =~= rest.push(last));
        lemma_slots_encoding_push(rest, last);
        assert(slots.push(last)[0] == slots[0]);
        assert(len_field(0x1a, slots[0].encoding()) + (slots_encoding(rest) + field) =~= (
        len_field(0x1a, slots[0].encoding()) + slots_encoding(rest)) + field);
    }
}

/// What an [`Inventory`] record holds, as mathematical values.
pub struct InventoryRecordView {
    pub height: u32,
    pub width: u32,
    pub contents: Seq<ItemStackView>,
}

/// A container: its dimensions and its slots, row by row. Empty slots are
/// held as records with an empty name.
#[derive(Debug)]
pub struct Inventory {
    pub height: u32,
    pub width: u32,
    pub contents: Vec<ItemStack>,
}

impl View for Inventory {
    type V = InventoryRecordView;

    open spec fn view(&self) -> InventoryRecordView {
        InventoryRecordView {
            height: self.height,
            width: self.width,
            contents: self.contents.deep_view(),
        }
    }
}

impl InventoryRecordView {
    /// Whether the record can be written. Every record that is held in memory can.
    pub open spec fn encodable(self) -> bool {
        slots_encodable(self.contents)
    }

    /// The bytes of the record: its height as field 1, its width as field 2,
    /// and each of its slots as a field 3.
    pub open spec fn encoding(self) -> Seq<u8> {
        int_field(0x08, self.height as u64) + int_field(0x10, self.width as u64) + slots_encoding(
            self.contents,
        )
    }

    /// The record that `bytes` hold, if they are the bytes of one: the
    /// dimensions are read, and then the slots, which have to be all there is.
    #[verifier::opaque]
    pub open spec fn parse(bytes: Seq<u8>) -> Option<InventoryRecordView> {
        let height = parse_int_field(0x08, bytes);
        let n1 = height.unwrap().1;
        let width = parse_int_field(0x10, bytes.skip(n1));
        let n2 = n1 + width.unwrap().1;
        let contents = parse_slots(bytes.skip(n2));
        if height is Some && width is Some && contents is Some && height.unwrap().0 <= u32::MAX
            && width.unwrap().0 <= u32::MAX {
            Some(
                InventoryRecordView {
                    height: height.unwrap().0 as u32,
                    width: width.unwrap().0 as u32,
                    contents: contents.unwrap(),
                },
            )
        } else {
            None
        }
    }

    /// Reading what was written gives the record back.
    #[verifier::rlimit(40)]
    pub proof fn lemma_encoding_parses(self)
        requires
            self.encodable(),
        ensures
            Self::parse(self.encoding()) == Some(self),
    {
        let f1 = int_field(0x08, self.height as u64);
        let f2 = int_field(0x10, self.width as u64);
        let f3 = slots_encoding(self.contents);
        let bytes = self.encoding();
        let n1 = f1.len() as int;
        let n2 = f2.len() as int;
        assert(!starts_with(f3, 0x08) && !starts_with(f3, 0x10) && !starts_with(f2 + f3, 0x08));
        assert(parse_int_field(0x08, bytes) == Some((self.height as u64, n1))) by {
            assert(bytes =~= f1 + (f2 + f3));
            lemma_int_field_parses(0x08, self.height as u64, f2 + f3);
        }
        assert(parse_int_field(0x10, bytes.skip(n1)) == Some((self.width as u64, n2))) by {
            assert(bytes.skip(n1) =~= f2 + f3);
            lemma_int_field_parses(0x10, self.width as u64, f3);
        }
        assert(parse_slots(bytes.skip(n1 + n2)) == Some(self.contents)) by {
            assert(bytes.skip(n1 + n2) =~= f3);
            lemma_slots_encoding_parses(self.contents);
        }
        assert(Self::parse(bytes) == Some(self)) by {
            reveal(InventoryRecordView::parse);
        }
    }

    /// What was read is written as the bytes it was read from.
    #[verifier::rlimit(40)]
    pub proof fn lemma_parsed_encoding(bytes: Seq<u8>)
        ensures
            Self::parse(bytes) matches Some(record) ==> record.encoding() == bytes
                && record.encodable(),
    {
        if let Some(record) = Self::parse(bytes) {
            let p1 = parse_int_field(0x08, bytes);
            let n1 = p1.unwrap().1;
            let rest1 = bytes.skip(n1);
            let p2 = parse_int_field(0x10, rest1);
            let n2 = p2.unwrap().1;
            let rest2 = bytes.skip(n1 + n2);
            assert({
                &&& p1 is Some && p2 is Some
                &&& parse_slots(rest2) == Some(record.contents)
                &&& record.height == p1.unwrap().0
                &&& record.width == p2.unwrap().0
            }) by {
                reveal(InventoryRecordView::parse);
            }
            lemma_parsed_int_field(0x08, bytes);
            lemma_parsed_int_field(0x10, rest1);
            lemma_parsed_slots(rest2);
            assert(bytes =~= bytes.subrange(0, n1) + rest1.subrange(0, n2) + rest2);
        }
    }
}

/// Records with the same bytes are the same record.
pub proof fn lemma_inventory_encoding_is_injective(a: InventoryRecordView, b: InventoryRecordView)
    requires
        a.encodable(),
        b.encodable(),
        a.encoding() == b.encoding(),
    ensures
        a == b,
{
    a.lemma_encoding_parses();
    b.lemma_encoding_parses();
}

impl Inventory {
    /// The bytes of the record.
    pub fn encode_to_vec(&self) -> (bytes: Vec<u8>)
        ensures
            bytes@ == self@.encoding(),
            self@.encodable(),
    {
        let mut bytes: Vec<u8> = Vec::new();
        write_int_field(0x08, self.height as u64, &mut bytes);
        write_int_field(0x10, self.width as u64, &mut bytes);
        let ghost head = bytes@;
        let mut i: usize = 0;
        assert(self.contents.deep_view().take(0) =~= Seq::<ItemStackView>::empty());
        while i < self.contents.len()
            invariant
                i <= self.contents.len(),
                bytes@ == head + slots_encoding(self.contents.deep_view().take(i as int)),
                slots_encodable(self.contents.deep_view().take(i as int)),
            decreases self.contents.len() - i,
        {
            let slot = self.contents[i].encode_to_vec();
            write_len_field(0x1a, slot.as_slice(), &mut bytes);
            proof {
                let all = self.contents.deep_view();
                let done = all.take(i as int);
                assert(all.take(i + 1) =~= done.push(all[i as int]));
                lemma_slots_encoding_push(done, all[i as int]);
                assert(bytes@ =~= head + slots_encoding(all.take(i + 1)));
                assert forall|k: int| 0 <= k < i + 1 implies (#[trigger] all.take(
                    i + 1,
                )[k]).encodable() && all.take(i + 1)[k].encoding().len() <= u64::MAX by {
                    if k < i {
                        assert(all.take(i + 1)[k] == done[k]);
                    }
                }
            }
            i = i + 1;
        }
        proof {
            let all = self.contents.deep_view();
            assert(all.take(i as int) =~= all);
            assert(bytes@ =~= self@.encoding());
        }
        bytes
    }

    /// The record that `buf` holds. The bytes of a record are accepted, and
    /// nothing else.
    pub fn decode(buf: &[u8]) -> (result: Result<Inventory, DecodeError>)
        ensures
            match result {
                Ok(record) => InventoryRecordView::parse(buf@) == Some(record@)
                    && record@.encoding() == buf@,
                Err(_) => InventoryRecordView::parse(buf@) is None && forall|
                    v: InventoryRecordView,
                |
                    v.encodable() ==> #[trigger] v.encoding() != buf@,
            },
    {
        proof {
            InventoryRecordView::lemma_parsed_encoding(buf@);
            assert forall|v: InventoryRecordView|
                v.encodable() && #[trigger] v.encoding() == buf@ implies InventoryRecordView::parse(
                buf@,
            ) == Some(v) by {
                v.lemma_encoding_parses();
            }
        }
        match Self::read(buf) {
            Some(record) => Ok(record),
            None => Err(DecodeError),
        }
    }

    /// Reads the record that `buf` holds.
    #[verifier::rlimit(40)]
    fn read(buf: &[u8]) -> (result: Option<Inventory>)
        ensures
            match result {
                Some(record) => InventoryRecordView::parse(buf@) == Some(record@),
                None => InventoryRecordView::parse(buf@) is None,
            },
    {
        assert(buf@.skip(0) =~= buf@);
        let (height, pos1) = match read_int_field(buf, 0, 0x08) {
            Some(found) => found,
            None => {
                assert(InventoryRecordView::parse(buf@) is None) by {
                    reveal(InventoryRecordView::parse);
                }
                return None;
            },
        };
        let (width, pos2) = match read_int_field(buf, pos1, 0x10) {
            Some(found) => found,
            None => {
                assert(InventoryRecordView::parse(buf@) is None) by {
                    reveal(InventoryRecordView::parse);
                }
                return None;
            },
        };
        let contents = match read_slots(buf, pos2) {
            Some(found) => found,
            None => {
                assert(InventoryRecordView::parse(buf@) is None) by {
                    reveal(InventoryRecordView::parse);
                }
                return None;
            },
        };
        if height > u32::MAX as u64 || width > u32::MAX as u64 {
            assert(InventoryRecordView::parse(buf@) is None) by {
                reveal(InventoryRecordView::parse);
            }
            return None;
        }
        let record = Inventory { height: height as u32, width: width as u32, contents };
        assert(InventoryRecordView::parse(buf@) == Some(record@)) by {
            reveal(InventoryRecordView::parse);
        }
        Some(record)
    }
}

/// Reads the list of slots that `buf` holds from `start` on.
fn read_slots(buf: &[u8], start: usize) -> (result: Option<Vec<ItemStack>>)
    requires
        start <= buf.len(),
    ensures
        result.deep_view() == parse_slots(buf@.skip(start as int)),
{
    let mut slots: Vec<ItemStack> = Vec::new();
    let mut pos: usize = start;
    assert(slots.deep_view() =~= Seq::<ItemStackView>::empty());
    while pos < buf.len()
        invariant
            start <= pos <= buf.len(),
            parse_slots(buf@.skip(start as int)) == (match parse_slots(buf@.skip(pos as int)) {
                Some(rest) => Some(slots.deep_view() + rest),
                None => None,
            }),
        decreases buf.len() - pos,
    {
        let ghost here = buf@.skip(pos as int);
        let (from, next) = match read_len_field(buf, pos, 0x1a) {
            Some(found) => found,
            None => {
                return None;
            },
        };
        let slot = match ItemStack::read(slice_subrange(buf, from, next)) {
            Some(found) => found,
            None => {
                return None;
            },
        };
        proof {
            assert(here.skip(next - pos) =~= buf@.skip(next as int));
            let done = slots.deep_view();
            match parse_slots(buf@.skip(next as int)) {
                Some(rest) => {
                    assert(done + (seq![slot@] + rest) =~= done.push(slot@) + rest);
                },
                None => {},
            }
        }
        let ghost done = slots.deep_view();
        slots.push(slot);
        assert(slots.deep_view() =~= done.push(slot@));
        pos = next;
    }
    proof {
        assert(slots.deep_view() + Seq::<ItemStackView>::empty() =~= slots.deep_view());
    }
    Some(slots)
}

/// A point in space. Each coordinate is held as the 64 bits of a
/// double-precision number (IEEE 754 binary64).
#[derive(Clone, Copy, Debug, PartialEq, Eq, Structural)]
pub struct Vec3D {
    pub x: u64,
    pub y: u64,
    pub z: u64,
}

impl Vec3D {
    /// The bytes of the point: its coordinates as the 64-bit fields 1, 2 and 3.
    pub open spec fn encoding(self) -> Seq<u8> {
        fixed64_field(0x09, self.x) + fixed64_field(0x11, self.y) + fixed64_field(0x19, self.z)
    }

    /// The point that `bytes` hold, if they are the bytes of one: the three
    /// coordinates are read one after the other, and have to be all there is.
    #[verifier::opaque]
    pub open spec fn parse(bytes: Seq<u8>) -> Option<Vec3D> {
        let x = parse_fixed64_field(0x09, bytes);
        let n1 = x.unwrap().1;
        let y = parse_fixed64_field(0x11, bytes.skip(n1));
        let n2 = n1 + y.unwrap().1;
        let z = parse_fixed64_field(0x19, bytes.skip(n2));
        let n3 = n2 + z.unwrap().1;
        if x is Some && y is Some && z is Some && n3 == bytes.len() {
            Some(Vec3D { x: x.unwrap().0, y: y.unwrap().0, z: z.unwrap().0 })
        } else {
            None
        }
    }

    /// Reading what was written gives the point back.
    #[verifier::rlimit(40)]
    pub proof fn lemma_encoding_parses(self)
        ensures
            Self::parse(self.encoding()) == Some(self),
    {
        vstd::bytes::lemma_auto_spec_u64_to_from_le_bytes();
        let f1 = fixed64_field(0x09, self.x);
        let f2 = fixed64_field(0x11, self.y);
        let f3 = fixed64_field(0x19, self.z);
        let bytes = self.encoding();
        let n1 = f1.len() as int;
        let n2 = f2.len() as int;
        let n3 = f3.len() as int;
        assert(parse_fixed64_field(0x09, bytes) == Some((self.x, n1))) by {
            assert(bytes =~= f1 + (f2 + f3));
            lemma_fixed64_field_parses(0x09, self.x, f2 + f3);
        }
        assert(parse_fixed64_field(0x11, bytes.skip(n1)) == Some((self.y, n2))) by {
            assert(bytes.skip(n1) =~= f2 + f3);
            lemma_fixed64_field_parses(0x11, self.y, f3);
        }
        assert(parse_fixed64_field(0x19, bytes.skip(n1 + n2)) == Some((self.z, n3))) by {
            assert(bytes.skip(n1 + n2) =~= f3 + Seq::<u8>::empty());
            lemma_fixed64_field_parses(0x19, self.z, Seq::empty());
        }
        assert(n1 + n2 + n3 == bytes.len());
        assert(Self::parse(bytes) == Some(self)) by {
            reveal(Vec3D::parse);
        }
    }

    /// The bytes of a point are few: at most nine for each coordinate.
    pub proof fn lemma_encoding_length(self)
        ensures
            self.encoding().len() <= 27,
    {
        vstd::bytes::lemma_auto_spec_u64_to_from_le_bytes();
    }

    /// What was read is written as the bytes it was read from.
    #[verifier::rlimit(40)]
    pub proof fn lemma_parsed_encoding(bytes: Seq<u8>)
        ensures
            Self::parse(bytes) matches Some(point) ==> point.encoding() == bytes,
    {
        if let Some(point) = Self::parse(bytes) {
            let p1 = parse_fixed64_field(0x09, bytes);
            let n1 = p1.unwrap().1;
            let rest1 = bytes.skip(n1);
            let p2 = parse_fixed64_field(0x11, rest1);
            let n2 = p2.unwrap().1;
            let rest2 = bytes.skip(n1 + n2);
            let p3 = parse_fixed64_field(0x19, rest2);
            let n3 = p3.unwrap().1;
            assert({
                &&& p1 is Some && p2 is Some && p3 is Some
                &&& n1 + n2 + n3 == bytes.len()
                &&& point.x == p1.unwrap().0
                &&& point.y == p2.unwrap().0
                &&& point.z == p3.unwrap().0
            }) by {
                reveal(Vec3D::parse);
            }
            lemma_parsed_fixed64_field(0x09, bytes);
            lemma_parsed_fixed64_field(0x11, rest1);
            lemma_parsed_fixed64_field(0x19, rest2);
            lemma_three_pieces(bytes, n1, n2, n3);
        }
    }

    /// The bytes of the point.
    pub fn encode_to_vec(&self) -> (bytes: Vec<u8>)
        ensures
            bytes@ == self.encoding(),
    {
        let mut bytes: Vec<u8> = Vec::new();
        write_fixed64_field(0x09, self.x, &mut bytes);
        write_fixed64_field(0x11, self.y, &mut bytes);
        write_fixed64_field(0x19, self.z, &mut bytes);
        assert(bytes@ =~= self.encoding());
        bytes
    }

    /// Reads the point that `buf` holds.
    #[verifier::rlimit(40)]
    fn read(buf: &[u8]) -> (result: Option<Vec3D>)
        ensures
            result == Self::parse(buf@),
    {
        assert(buf@.skip(0) =~= buf@);
        let (x, pos1) = match read_fixed64_field(buf, 0, 0x09) {
            Some(found) => found,
            None => {
                assert(Vec3D::parse(buf@) is None) by {
                    reveal(Vec3D::parse);
                }
                return None;
            },
        };
        let (y, pos2) = match read_fixed64_field(buf, pos1, 0x11) {
            Some(found) => found,
            None => {
                assert(Vec3D::parse(buf@) is None) by {
                    reveal(Vec3D::parse);
                }
                return None;
            },
        };
        let (z, pos3) = match read_fixed64_field(buf, pos2, 0x19) {
            Some(found) => found,
            None => {
                assert(Vec3D::parse(buf@) is None) by {
                    reveal(Vec3D::parse);
                }
                return None;
            },
        };
        if pos3 != buf.len() {
            assert(Vec3D::parse(buf@) is None) by {
                reveal(Vec3D::parse);
            }
            return None;
        }
        assert(Vec3D::parse(buf@) == Some(Vec3D { x, y, z })) by {
            reveal(Vec3D::parse);
        }
        Some(Vec3D { x, y, z })
    }

    /// The point that `buf` holds. The bytes of a point are accepted, and
    /// nothing else.
    pub fn decode(buf: &[u8]) -> (result: Result<Vec3D, DecodeError>)
        ensures
            match result {
                Ok(point) => Self::parse(buf@) == Some(point) && point.encoding() == buf@,
                Err(_) => Self::parse(buf@) is None && forall|v: Vec3D| #[trigger]
                    v.encoding() != buf@,
            },
    {
        proof {
            Self::lemma_parsed_encoding(buf@);
            assert forall|v: Vec3D| #[trigger] v.encoding() == buf@ implies Self::parse(buf@)
                == Some(v) by {
                v.lemma_encoding_parses();
            }
        }
        match Self::read(buf) {
            Some(point) => Ok(point),
            None => Err(DecodeError),
        }
    }
}

/// What a [`StoredPlayer`] record holds, as mathematical values.
pub struct StoredPlayerView {
    pub name: Seq<char>,
    pub last_position: Option<Vec3D>,
    pub main_inventory: Seq<u8>,
}

/// What is persisted of a player.
#[derive(Debug)]
pub struct StoredPlayer {
    /// The player's name.
    pub name: String,
    /// Where the player was last seen.
    pub last_position: Option<Vec3D>,
    /// The bytes of the key of the player's main inventory.
    pub main_inventory: Vec<u8>,
}

impl View for StoredPlayer {
    type V = StoredPlayerView;

    open spec fn view(&self) -> StoredPlayerView {
        StoredPlayerView {
            name: self.name@,
            last_position: self.last_position,
            main_inventory: self.main_inventory@,
        }
    }
}

/// The field that holds a position; no bytes where there is none.
pub open spec fn position_field(position: Option<Vec3D>) -> Seq<u8> {
    match position {
        Some(point) => len_field(0x12, point.encoding()),
        None => Seq::empty(),
    }
}

/// Reads a position field from the start of `bytes`: the position (none
/// where the bytes start with no such field) and the length of the field.
pub open spec fn parse_position_field(bytes: Seq<u8>) -> Option<(Option<Vec3D>, int)> {
    if starts_with(bytes, 0x12) {
        match parse_len_field(0x12, bytes) {
            Some((payload, n)) => match Vec3D::parse(payload) {
                Some(point) => Some((Some(point), n)),
                None => None,
            },
            None => None,
        }
    } else {
        Some((None, 0))
    }
}

impl StoredPlayerView {
    /// Whether the record can be written: the lengths of its name and of its
    /// key fit the length prefix. Every record that is held in memory can.
    pub open spec fn encodable(self) -> bool {
        encode_utf8(self.name).len() <= u64::MAX && self.main_inventory.len() <= u64::MAX
    }

    /// The bytes of the record: its name in UTF-8 as field 1, its position as
    /// field 2, and the key of its main inventory as field 3.
    pub open spec fn encoding(self) -> Seq<u8> {
        bytes_field(0x0a, encode_utf8(self.name)) + position_field(self.last_position)
            + bytes_field(0x1a, self.main_inventory)
    }

    /// The record that `bytes` hold, if they are the bytes of one: the three
    /// fields are read one after the other, and have to be all there is.
    #[verifier::opaque]
    pub open spec fn parse(bytes: Seq<u8>) -> Option<StoredPlayerView> {
        let name = parse_bytes_field(0x0a, bytes);
        let n1 = name.unwrap().1;
        let last_position = parse_position_field(bytes.skip(n1));
        let n2 = n1 + last_position.unwrap().1;
        let main_inventory = parse_bytes_field(0x1a, bytes.skip(n2));
        let n3 = n2 + main_inventory.unwrap().1;
        if name is Some && last_position is Some && main_inventory is Some && n3 == bytes.len()
            && valid_utf8(name.unwrap().0) {
            Some(
                StoredPlayerView {
                    name: decode_utf8(name.unwrap().0),
                    last_position: last_position.unwrap().0,
                    main_inventory: main_inventory.unwrap().0,
                },
            )
        } else {
            None
        }
    }

    /// Reading what was written gives the record back.
    #[verifier::rlimit(40)]
    pub proof fn lemma_encoding_parses(self)
        requires
            self.encodable(),
        ensures
            Self::parse(self.encoding()) == Some(self),
    {
        let name = encode_utf8(self.name);
        let f1 = bytes_field(0x0a, name);
        let f2 = position_field(self.last_position);
        let f3 = bytes_field(0x1a, self.main_inventory);
        let bytes = self.encoding();
        let n1 = f1.len() as int;
        let n2 = f2.len() as int;
        let n3 = f3.len() as int;
        assert(parse_bytes_field(0x0a, bytes) == Some((name, n1))) by {
            assert(bytes =~= f1 + (f2 + f3));
            lemma_bytes_field_parses(0x0a, name, f2 + f3);
        }
        assert(parse_position_field(bytes.skip(n1)) == Some((self.last_position, n2))) by {
            assert(bytes.skip(n1) =~= f2 + f3);
            match self.last_position {
                Some(point) => {
                    point.lemma_encoding_parses();
                    point.lemma_encoding_length();
                    lemma_len_field_parses(0x12, point.encoding(), f3);
                },
                None => {
                    assert(f2 + f3 =~= f3);
                },
            }
        }
        assert(parse_bytes_field(0x1a, bytes.skip(n1 + n2)) == Some((self.main_inventory, n3))) by {
            assert(bytes.skip(n1 + n2) =~= f3 + Seq::<u8>::empty());
            lemma_bytes_field_parses(0x1a, self.main_inventory, Seq::empty());
        }
        assert(n1 + n2 + n3 == bytes.len());
        encode_utf8_valid_utf8(self.name);
        encode_utf8_decode_utf8(self.name);
        assert(Self::parse(bytes) == Some(self)) by {
            reveal(StoredPlayerView::parse);
        }
    }

    /// What was read is written as the bytes it was read from.
    #[verifier::rlimit(40)]
    pub proof fn lemma_parsed_encoding(bytes: Seq<u8>)
        ensures
            Self::parse(bytes) matches Some(record) ==> record.encoding() == bytes
                && record.encodable(),
    {
        if let Some(record) = Self::parse(bytes) {
            let p1 = parse_bytes_field(0x0a, bytes);
            let name = p1.unwrap().0;
            let n1 = p1.unwrap().1;
            let rest1 = bytes.skip(n1);
            let p2 = parse_position_field(rest1);
            let n2 = p2.unwrap().1;
            let rest2 = bytes.skip(n1 + n2);
            let p3 = parse_bytes_field(0x1a, rest2);
            let n3 = p3.unwrap().1;
            assert({
                &&& p1 is Some && p2 is Some && p3 is Some
                &&& n1 + n2 + n3 == bytes.len()
                &&& valid_utf8(name)
                &&& record.name == decode_utf8(name)
                &&& record.last_position == p2.unwrap().0
                &&& record.main_inventory == p3.unwrap().0
            }) by {
                reveal(StoredPlayerView::parse);
            }
            lemma_parsed_bytes_field(0x0a, bytes);
            assert(0 <= n2 && rest1.subrange(0, n2) == position_field(record.last_position)) by {
                if starts_with(rest1, 0x12) {
                    lemma_parsed_len_field(0x12, rest1);
                    let payload = parse_len_field(0x12, rest1).unwrap().0;
                    Vec3D::lemma_parsed_encoding(payload);
                } else {
                    assert(rest1.subrange(0, 0) =~= position_field(None));
                }
            }
            lemma_parsed_bytes_field(0x1a, rest2);
            decode_utf8_encode_utf8(name);
            lemma_three_pieces(bytes, n1, n2, n3);
        }
    }
}

/// Records with the same bytes are the same record.
pub proof fn lemma_stored_player_encoding_is_injective(a: StoredPlayerView, b: StoredPlayerView)
    requires
        a.encodable(),
        b.encodable(),
        a.encoding() == b.encoding(),
    ensures
        a == b,
{
    a.lemma_encoding_parses();
    b.lemma_encoding_parses();
}

impl StoredPlayer {
    /// The bytes of the record.
    pub fn encode_to_vec(&self) -> (bytes: Vec<u8>)
        ensures
            bytes@ == self@.encoding(),
            self@.encodable(),
    {
        let mut bytes: Vec<u8> = Vec::new();
        write_bytes_field(0x0a, self.name.as_str().as_bytes(), &mut bytes);
        match &self.last_position {
            Some(point) => {
                let payload = point.encode_to_vec();
                write_len_field(0x12, payload.as_slice(), &mut bytes);
            },
            None => {},
        }
        assert(bytes@ =~= bytes_field(0x0a, encode_utf8(self.name@)) + position_field(
            self.last_position,
        ));
        write_bytes_field(0x1a, self.main_inventory.as_slice(), &mut bytes);
        assert(bytes@ =~= self@.encoding());
        bytes
    }

    /// The record that `buf` holds. The bytes of a record are accepted, and
    /// nothing else.
    pub fn decode(buf: &[u8]) -> (result: Result<StoredPlayer, DecodeError>)
        ensures
            match result {
                Ok(record) => StoredPlayerView::parse(buf@) == Some(record@) && record@.encoding()
                    == buf@,
                Err(_) => StoredPlayerView::parse(buf@) is None && forall|v: StoredPlayerView|
                    v.encodable() ==> #[trigger] v.encoding() != buf@,
            },
    {
        proof {
            StoredPlayerView::lemma_parsed_encoding(buf@);
            assert forall|v: StoredPlayerView|
                v.encodable() && #[trigger] v.encoding() == buf@ implies StoredPlayerView::parse(
                buf@,
            ) == Some(v) by {
                v.lemma_encoding_parses();
            }
        }
        match Self::read(buf) {
            Some(record) => Ok(record),
            None => Err(DecodeError),
        }
    }

    /// Reads the record that `buf` holds.
    #[verifier::rlimit(40)]
    fn read(buf: &[u8]) -> (result: Option<StoredPlayer>)
        ensures
            match result {
                Some(record) => StoredPlayerView::parse(buf@) == Some(record@),
                None => StoredPlayerView::parse(buf@) is None,
            },
    {
        assert(buf@.skip(0) =~= buf@);
        let (name_start, pos1) = match read_bytes_field(buf, 0, 0x0a) {
            Some(found) => found,
            None => {
                assert(StoredPlayerView::parse(buf@) is None) by {
                    reveal(StoredPlayerView::parse);
                }
                return None;
            },
        };
        let (last_position, pos2) = if pos1 < buf.len() && buf[pos1] == 0x12 {
            let (from, next) = match read_len_field(buf, pos1, 0x12) {
                Some(found) => found,
                None => {
                    assert(StoredPlayerView::parse(buf@) is None) by {
                    reveal(StoredPlayerView::parse);
                }
                return None;
                },
            };
            match Vec3D::read(slice_subrange(buf, from, next)) {
                Some(point) => (Some(point), next),
                None => {
                    assert(StoredPlayerView::parse(buf@) is None) by {
                    reveal(StoredPlayerView::parse);
                }
                return None;
                },
            }
        } else {
            (None, pos1)
        };
        let (key_start, pos3) = match read_bytes_field(buf, pos2, 0x1a) {
            Some(found) => found,
            None => {
                assert(StoredPlayerView::parse(buf@) is None) by {
                    reveal(StoredPlayerView::parse);
                }
                return None;
            },
        };
        if pos3 != buf.len() {
            assert(StoredPlayerView::parse(buf@) is None) by {
                reveal(StoredPlayerView::parse);
            }
            return None;
        }
        let name = match string_from_utf8(bytes_to_vec(slice_subrange(buf, name_start, pos1))) {
            Some(name) => name,
            None => {
                assert(StoredPlayerView::parse(buf@) is None) by {
                    reveal(StoredPlayerView::parse);
                }
                return None;
            },
        };
        let main_inventory = bytes_to_vec(slice_subrange(buf, key_start, pos3));
        let record = StoredPlayer { name, last_position, main_inventory };
        assert(StoredPlayerView::parse(buf@) == Some(record@)) by {
            reveal(StoredPlayerView::parse);
        }
        Some(record)
    }
}

/// How the quantity of an item is counted.
#[derive(Clone, Copy, Debug, PartialEq, Eq, Structural)]
pub enum QuantityType {
    /// The item stacks, up to the given number per stack.
    Stack(u32),
    /// The item does not stack; the number is its total wear.
    Wear(u32),
}

/// The definition of a kind of item.
#[derive(Debug)]
pub struct ItemDef {
    /// The unique name of the item.
    pub short_name: String,
    /// The name shown to users.
    pub display_name: String,
    pub quantity_type: Option<QuantityType>,
}

impl Clone for ItemDef {
    fn clone(&self) -> (copy: Self)
        ensures
            copy == *self,
    {
        ItemDef {
            short_name: self.short_name.clone(),
            display_name: self.display_name.clone(),
            quantity_type: self.quantity_type,
        }
    }
}

} // verus!
