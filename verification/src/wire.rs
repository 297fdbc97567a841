//! The wire format of the persisted records: variable-length integers and the
//! fields built from them.
//!
//! A record is written as its fields in the order of their numbers. Each field
//! starts with a key byte that holds its number and kind. A field whose value
//! is zero or empty is left out. Only this form is accepted when reading, so
//! that every record has exactly one encoding.

use vstd::bytes::{
    lemma_auto_spec_u64_to_from_le_bytes, spec_u64_from_le_bytes, spec_u64_to_le_bytes,
    u64_from_le_bytes, u64_to_le_bytes,
};
use vstd::prelude::*;
use vstd::slice::slice_subrange;
use vstd::utf8::{decode_utf8, valid_utf8};

verus! {

/// The bytes of a variable-length integer: seven bits per byte, the low bits
/// first, and the high bit of every byte but the last set.
pub open spec fn varint_bytes(value: u64) -> Seq<u8>
    decreases value,
{
    if value < 128 {
        seq![value as u8]
    } else {
        seq![(value % 128 + 128) as u8] + varint_bytes(value / 128)
    }
}

/// Reads a variable-length integer from the start of `bytes`: the value and
/// the number of bytes that hold it. None where the bytes do not start with
/// the encoding of a 64-bit value in its shortest form.
pub open spec fn parse_varint(bytes: Seq<u8>) -> Option<(u64, int)>
    decreases bytes.len(),
{
    if bytes.len() == 0 {
        None
    } else if bytes[0] < 128 {
        Some((bytes[0] as u64, 1))
    } else {
        match parse_varint(bytes.skip(1)) {
            Some((high, n)) => if high == 0 || high > (u64::MAX - (bytes[0] - 128)) / 128 {
                None
            } else {
                Some((((bytes[0] - 128) + 128 * high) as u64, n + 1))
            },
            None => None,
        }
    }
}

/// 128 to the power of `k`.
pub open spec fn pow128(k: nat) -> nat
    decreases k,
{
    if k == 0 {
        1
    } else {
        128 * pow128((k - 1) as nat)
    }
}

/// What was written can be read back, whatever follows it.
pub proof fn lemma_varint_parses(value: u64, rest: Seq<u8>)
    ensures
        parse_varint(varint_bytes(value) + rest) == Some((value, varint_bytes(value).len() as int)),
    decreases value,
{
    let bytes = varint_bytes(value) + rest;
    if value < 128 {
        assert(bytes[0] == value as u8);
    } else {
        let tail = varint_bytes(value / 128);
        assert(bytes[0] == (value % 128 + 128) as u8);
        assert(bytes.skip(1) =~= tail + rest);
        lemma_varint_parses(value / 128, rest);
    }
}

/// What was read is the encoding of the value that was read.
pub proof fn lemma_parsed_varint(bytes: Seq<u8>)
    ensures
        parse_varint(bytes) matches Some((value, n)) ==> {
            &&& 1 <= n <= bytes.len()
            &&& bytes.subrange(0, n) == varint_bytes(value)
            &&& bytes[n - 1] < 128
            &&& forall|i: int| 0 <= i < n - 1 ==> bytes[i] >= 128
            &&& n >= 2 ==> value >= pow128((n - 1) as nat)
        },
    decreases bytes.len(),
{
    if bytes.len() > 0 && bytes[0] >= 128 {
        let tail = bytes.skip(1);
        lemma_parsed_varint(tail);
        if let Some((high, m)) = parse_varint(tail) {
            if !(high == 0 || high > (u64::MAX - (bytes[0] - 128)) / 128) {
                let value = ((bytes[0] - 128) + 128 * high) as u64;
                let n = m + 1;
                assert(value / 128 == high && value % 128 == bytes[0] - 128);
                assert(bytes.subrange(0, n) =~= seq![bytes[0]] + tail.subrange(0, m));
                assert forall|i: int| 0 <= i < n - 1 implies bytes[i] >= 128 by {
                    if i > 0 {
                        assert(bytes[i] == tail[i - 1]);
                    }
                }
                assert(bytes[n - 1] == tail[m - 1]);
                assert(pow128(1) == 128) by {
                    reveal_with_fuel(pow128, 2);
                }
                if m >= 2 {
                    assert(high >= pow128((m - 1) as nat));
                    assert(pow128((n - 1) as nat) == 128 * pow128((m - 1) as nat));
                }
            }
        }
    } else if bytes.len() > 0 {
        assert(bytes.subrange(0, 1) =~= seq![bytes[0]]);
    }
}

proof fn lemma_pow128_of_ten()
    ensures
        pow128(10) > u64::MAX,
{
    reveal_with_fuel(pow128, 11);
}

proof fn lemma_pow128_grows(a: nat, b: nat)
    requires
        a <= b,
    ensures
        pow128(a) <= pow128(b),
    decreases b,
{
    if a < b {
        lemma_pow128_grows(a, (b - 1) as nat);
    }
}

/// Bytes without a last byte (one below 128) hold no integer.
proof fn lemma_unterminated(bytes: Seq<u8>)
    requires
        forall|i: int| 0 <= i < bytes.len() ==> bytes[i] >= 128,
    ensures
        parse_varint(bytes) is None,
    decreases bytes.len(),
{
    if bytes.len() > 0 {
        let tail = bytes.skip(1);
        assert forall|i: int| 0 <= i < tail.len() implies tail[i] >= 128 by {
            assert(tail[i] == bytes[i + 1]);
        }
        lemma_unterminated(tail);
    }
}

/// More than ten bytes hold no 64-bit integer.
proof fn lemma_overlong(bytes: Seq<u8>)
    requires
        bytes.len() >= 10,
        forall|i: int| 0 <= i < 10 ==> bytes[i] >= 128,
    ensures
        parse_varint(bytes) is None,
{
    lemma_parsed_varint(bytes);
    if let Some((value, n)) = parse_varint(bytes) {
        if n <= 10 {
            assert(bytes[n - 1] < 128);
        }
        lemma_pow128_grows(10, (n - 1) as nat);
        lemma_pow128_of_ten();
    }
}

/// Where the bytes after some leading bytes (each 128 or more) hold no
/// integer, neither do the bytes with them.
proof fn lemma_failure_spreads(bytes: Seq<u8>, k: int)
    requires
        0 <= k <= bytes.len(),
        forall|i: int| 0 <= i < k ==> bytes[i] >= 128,
        parse_varint(bytes.skip(k)) is None,
    ensures
        parse_varint(bytes) is None,
    decreases k,
{
    if k > 0 {
        let tail = bytes.skip(1);
        assert(tail.skip(k - 1) =~= bytes.skip(k));
        assert forall|i: int| 0 <= i < k - 1 implies tail[i] >= 128 by {
            assert(tail[i] == bytes[i + 1]);
        }
        lemma_failure_spreads(tail, k - 1);
    } else {
        assert(bytes.skip(0) =~= bytes);
    }
}

/// Appends the encoding of `value` to `buf`.
///
/// Calls `prost::encoding::encode_varint`, which writes the low seven bits of
/// the value with the high bit set and goes on with the value shifted right
/// by seven bits, until what is left is below 128 and is written as the last
/// byte.
#[verifier::external_body]
pub(crate) fn put_varint(value: u64, buf: &mut Vec<u8>)
    ensures
        final(buf)@ == old(buf)@ + varint_bytes(value),
{
    prost::encoding::encode_varint(value, buf)
}

/// Reads a variable-length integer at `pos`: the value and the position after it.
pub fn read_varint(buf: &[u8], pos: usize) -> (result: Option<(u64, usize)>)
    requires
        pos <= buf.len(),
    ensures
        match result {
            Some((value, next)) => pos < next <= buf.len() && parse_varint(buf@.skip(pos as int))
                == Some((value, next - pos)),
            None => parse_varint(buf@.skip(pos as int)) is None,
        },
{
    let ghost bytes = buf@.skip(pos as int);
    // Find the last byte of the integer among the next ten bytes.
    let mut end: usize = pos;
    while end < buf.len() && end - pos < 10 && buf[end] >= 128
        invariant
            pos <= end <= buf.len(),
            end - pos <= 10,
            bytes == buf@.skip(pos as int),
            forall|i: int| 0 <= i < end - pos ==> bytes[i] >= 128,
        decreases buf.len() - end,
    {
        end = end + 1;
    }
    if end == buf.len() {
        proof {
            lemma_unterminated(bytes);
        }
        return None;
    }
    if end - pos == 10 {
        proof {
            lemma_overlong(bytes);
        }
        return None;
    }
    // Collect the groups of seven bits, the highest first.
    let mut value: u64 = buf[end] as u64;
    let mut at: usize = end;
    proof {
        assert(bytes.skip(end - pos)[0] == buf@[end as int]);
    }
    while at > pos
        invariant
            pos <= at <= end < buf.len(),
            bytes == buf@.skip(pos as int),
            forall|i: int| 0 <= i < end - pos ==> bytes[i] >= 128,
            parse_varint(bytes.skip(at - pos)) == Some((value, end - at + 1)),
        decreases at,
    {
        proof {
            assert(bytes[at - 1 - pos] == buf@[at - 1]);
        }
        let low: u64 = (buf[at - 1] - 128) as u64;
        proof {
            let here = bytes.skip(at - 1 - pos);
            assert(here[0] == buf@[at - 1]);
            assert(bytes[at - 1 - pos] == buf@[at - 1]);
            assert(here.skip(1) =~= bytes.skip(at - pos));
            if value == 0 || value > (u64::MAX - low) / 128 {
                lemma_failure_spreads(bytes, at - 1 - pos);
            }
        }
        if value == 0 || value > (u64::MAX - low) / 128 {
            return None;
        }
        value = low + 128 * value;
        at = at - 1;
    }
    proof {
        assert(bytes.skip(0) =~= bytes);
    }
    Some((value, end + 1))
}

/// Whether `bytes` start with the byte `key`.
pub open spec fn starts_with(bytes: Seq<u8>, key: u8) -> bool {
    bytes.len() > 0 && bytes[0] == key
}

/// A field that holds an integer. It is left out where the integer is zero.
pub open spec fn int_field(key: u8, value: u64) -> Seq<u8> {
    if value == 0 {
        Seq::empty()
    } else {
        seq![key] + varint_bytes(value)
    }
}

/// Reads an integer field with the given key from the start of `bytes`: its
/// value (zero where the bytes start with no such field) and its length.
pub open spec fn parse_int_field(key: u8, bytes: Seq<u8>) -> Option<(u64, int)> {
    if starts_with(bytes, key) {
        match parse_varint(bytes.skip(1)) {
            Some((value, n)) => if value == 0 {
                None
            } else {
                Some((value, n + 1))
            },
            None => None,
        }
    } else {
        Some((0, 0))
    }
}

/// A field that holds a byte string, preceded by its length.
pub open spec fn len_field(key: u8, payload: Seq<u8>) -> Seq<u8> {
    seq![key] + varint_bytes(payload.len() as u64) + payload
}

/// Reads a length-prefixed field with the given key from the start of
/// `bytes`: its payload and its whole length.
pub open spec fn parse_len_field(key: u8, bytes: Seq<u8>) -> Option<(Seq<u8>, int)> {
    if starts_with(bytes, key) {
        match parse_varint(bytes.skip(1)) {
            Some((len, n)) => if 1 + n + len <= bytes.len() {
                Some((bytes.subrange(1 + n, 1 + n + len), 1 + n + len))
            } else {
                None
            },
            None => None,
        }
    } else {
        None
    }
}

/// A field that holds a byte string. It is left out where the string is empty.
pub open spec fn bytes_field(key: u8, payload: Seq<u8>) -> Seq<u8> {
    if payload.len() == 0 {
        Seq::empty()
    } else {
        len_field(key, payload)
    }
}

/// Reads a byte-string field with the given key from the start of `bytes`:
/// its payload (empty where the bytes start with no such field) and its length.
pub open spec fn parse_bytes_field(key: u8, bytes: Seq<u8>) -> Option<(Seq<u8>, int)> {
    if starts_with(bytes, key) {
        match parse_len_field(key, bytes) {
            Some((payload, n)) => if payload.len() == 0 {
                None
            } else {
                Some((payload, n))
            },
            None => None,
        }
    } else {
        Some((Seq::empty(), 0))
    }
}

/// A field that holds 64 bits, the low byte first. It is left out where all
/// bits are zero.
pub open spec fn fixed64_field(key: u8, value: u64) -> Seq<u8> {
    if value == 0 {
        Seq::empty()
    } else {
        seq![key] + spec_u64_to_le_bytes(value)
    }
}

/// Reads a 64-bit field with the given key from the start of `bytes`: its
/// value (zero where the bytes start with no such field) and its length.
pub open spec fn parse_fixed64_field(key: u8, bytes: Seq<u8>) -> Option<(u64, int)> {
    if starts_with(bytes, key) {
        if bytes.len() >= 9 && spec_u64_from_le_bytes(bytes.subrange(1, 9)) != 0 {
            Some((spec_u64_from_le_bytes(bytes.subrange(1, 9)), 9))
        } else {
            None
        }
    } else {
        Some((0, 0))
    }
}

/// An integer field that was written can be read back, provided that what
/// follows it does not look like the same field.
pub proof fn lemma_int_field_parses(key: u8, value: u64, rest: Seq<u8>)
    requires
        !starts_with(rest, key),
    ensures
        parse_int_field(key, int_field(key, value) + rest) == Some(
            (value, int_field(key, value).len() as int),
        ),
{
    let bytes = int_field(key, value) + rest;
    if value == 0 {
        assert(bytes =~= rest);
    } else {
        assert(bytes[0] == key);
        assert(bytes.skip(1) =~= varint_bytes(value) + rest);
        lemma_varint_parses(value, rest);
    }
}

/// An integer field that was read is the encoding of the value that was read.
pub proof fn lemma_parsed_int_field(key: u8, bytes: Seq<u8>)
    ensures
        parse_int_field(key, bytes) matches Some((value, n)) ==> {
            &&& 0 <= n <= bytes.len()
            &&& bytes.subrange(0, n) == int_field(key, value)
            &&& !starts_with(bytes, key) <==> n == 0
        },
{
    if let Some((value, n)) = parse_int_field(key, bytes) {
        if starts_with(bytes, key) {
            lemma_parsed_varint(bytes.skip(1));
            assert(bytes.subrange(0, n) =~= seq![key] + bytes.skip(1).subrange(0, n - 1));
        } else {
            assert(bytes.subrange(0, 0) =~= Seq::<u8>::empty());
        }
    }
}

/// A length-prefixed field that was written can be read back, whatever follows it.
pub proof fn lemma_len_field_parses(key: u8, payload: Seq<u8>, rest: Seq<u8>)
    requires
        payload.len() <= u64::MAX,
    ensures
        parse_len_field(key, len_field(key, payload) + rest) == Some(
            (payload, len_field(key, payload).len() as int),
        ),
{
    let bytes = len_field(key, payload) + rest;
    let len = payload.len() as u64;
    assert(bytes[0] == key);
    assert(bytes.skip(1) =~= varint_bytes(len) + (payload + rest));
    lemma_varint_parses(len, payload + rest);
    let n = varint_bytes(len).len() as int;
    assert(bytes.subrange(1 + n, 1 + n + len) =~= payload);
}

/// A length-prefixed field that was read is the encoding of the payload that was read.
pub proof fn lemma_parsed_len_field(key: u8, bytes: Seq<u8>)
    ensures
        parse_len_field(key, bytes) matches Some((payload, n)) ==> {
            &&& 2 <= n <= bytes.len()
            &&& payload.len() <= u64::MAX
            &&& payload.len() + 2 <= n
            &&& bytes.subrange(0, n) == len_field(key, payload)
            &&& bytes.subrange(n - payload.len(), n) == payload
            &&& starts_with(bytes, key)
        },
{
    if let Some((payload, n)) = parse_len_field(key, bytes) {
        lemma_parsed_varint(bytes.skip(1));
        let (len, m) = parse_varint(bytes.skip(1)).unwrap();
        assert(bytes.subrange(0, n) =~= seq![key] + bytes.skip(1).subrange(0, m) + payload);
    }
}

/// A byte-string field that was written can be read back, provided that what
/// follows it does not look like the same field.
pub proof fn lemma_bytes_field_parses(key: u8, payload: Seq<u8>, rest: Seq<u8>)
    requires
        payload.len() <= u64::MAX,
        !starts_with(rest, key),
    ensures
        parse_bytes_field(key, bytes_field(key, payload) + rest) == Some(
            (payload, bytes_field(key, payload).len() as int),
        ),
{
    let bytes = bytes_field(key, payload) + rest;
    if payload.len() == 0 {
        assert(bytes =~= rest);
    } else {
        lemma_len_field_parses(key, payload, rest);
    }
}

/// A byte-string field that was read is the encoding of the payload that was read.
pub proof fn lemma_parsed_bytes_field(key: u8, bytes: Seq<u8>)
    ensures
        parse_bytes_field(key, bytes) matches Some((payload, n)) ==> {
            &&& 0 <= n <= bytes.len()
            &&& payload.len() <= u64::MAX
            &&& bytes.subrange(0, n) == bytes_field(key, payload)
            &&& !starts_with(bytes, key) <==> n == 0
        },
{
    if let Some((payload, n)) = parse_bytes_field(key, bytes) {
        if starts_with(bytes, key) {
            lemma_parsed_len_field(key, bytes);
        } else {
            assert(bytes.subrange(0, 0) =~= Seq::<u8>::empty());
        }
    }
}

/// A 64-bit field that was written can be read back, provided that what
/// follows it does not look like the same field.
pub proof fn lemma_fixed64_field_parses(key: u8, value: u64, rest: Seq<u8>)
    requires
        !starts_with(rest, key),
    ensures
        parse_fixed64_field(key, fixed64_field(key, value) + rest) == Some(
            (value, fixed64_field(key, value).len() as int),
        ),
{
    lemma_auto_spec_u64_to_from_le_bytes();
    let bytes = fixed64_field(key, value) + rest;
    if value == 0 {
        assert(bytes =~= rest);
    } else {
        assert(spec_u64_to_le_bytes(value).len() == 8);
        assert(bytes[0] == key);
        assert(bytes.subrange(1, 9) =~= spec_u64_to_le_bytes(value));
    }
}

/// A 64-bit field that was read is the encoding of the value that was read.
pub proof fn lemma_parsed_fixed64_field(key: u8, bytes: Seq<u8>)
    ensures
        parse_fixed64_field(key, bytes) matches Some((value, n)) ==> {
            &&& 0 <= n <= bytes.len()
            &&& bytes.subrange(0, n) == fixed64_field(key, value)
            &&& !starts_with(bytes, key) <==> n == 0
        },
{
    lemma_auto_spec_u64_to_from_le_bytes();
    if let Some((value, n)) = parse_fixed64_field(key, bytes) {
        if starts_with(bytes, key) {
            let body = bytes.subrange(1, 9);
            assert(spec_u64_to_le_bytes(spec_u64_from_le_bytes(body)) == body);
            assert(bytes.subrange(0, 9) =~= seq![key] + body);
        } else {
            assert(bytes.subrange(0, 0) =~= Seq::<u8>::empty());
        }
    }
}

/// Bytes are their first `n1` bytes, the next `n2` and the next `n3`, where
/// these are all there are.
pub proof fn lemma_three_pieces(bytes: Seq<u8>, n1: int, n2: int, n3: int)
    requires
        0 <= n1,
        0 <= n2,
        0 <= n3,
        n1 + n2 + n3 == bytes.len(),
    ensures
        bytes == bytes.subrange(0, n1) + bytes.skip(n1).subrange(0, n2) + bytes.skip(
            n1 + n2,
        ).subrange(0, n3),
{
    assert(bytes =~= bytes.subrange(0, n1) + bytes.skip(n1).subrange(0, n2) + bytes.skip(
        n1 + n2,
    ).subrange(0, n3));
}

/// Bytes are their first `n1` bytes, the next `n2`, the next `n3` and the
/// next `n4`, where these are all there are.
pub proof fn lemma_four_pieces(bytes: Seq<u8>, n1: int, n2: int, n3: int, n4: int)
    requires
        0 <= n1,
        0 <= n2,
        0 <= n3,
        0 <= n4,
        n1 + n2 + n3 + n4 == bytes.len(),
    ensures
        bytes == bytes.subrange(0, n1) + bytes.skip(n1).subrange(0, n2) + bytes.skip(
            n1 + n2,
        ).subrange(0, n3) + bytes.skip(n1 + n2 + n3).subrange(0, n4),
{
    assert(bytes =~= bytes.subrange(0, n1) + bytes.skip(n1).subrange(0, n2) + bytes.skip(
        n1 + n2,
    ).subrange(0, n3) + bytes.skip(n1 + n2 + n3).subrange(0, n4));
}

/// Bytes are their first `n1` bytes, the next `n2`, the next `n3`, the next
/// `n4` and the next `n5`, where these are all there are.
pub proof fn lemma_five_pieces(bytes: Seq<u8>, n1: int, n2: int, n3: int, n4: int, n5: int)
    requires
        0 <= n1,
        0 <= n2,
        0 <= n3,
        0 <= n4,
        0 <= n5,
        n1 + n2 + n3 + n4 + n5 == bytes.len(),
    ensures
        bytes == bytes.subrange(0, n1) + bytes.skip(n1).subrange(0, n2) + bytes.skip(
            n1 + n2,
        ).subrange(0, n3) + bytes.skip(n1 + n2 + n3).subrange(0, n4) + bytes.skip(
            n1 + n2 + n3 + n4,
        ).subrange(0, n5),
{
    assert(bytes =~= bytes.subrange(0, n1) + bytes.skip(n1).subrange(0, n2) + bytes.skip(
        n1 + n2,
    ).subrange(0, n3) + bytes.skip(n1 + n2 + n3).subrange(0, n4) + bytes.skip(
        n1 + n2 + n3 + n4,
    ).subrange(0, n5));
}

/// Appends an integer field to `buf`.
pub fn write_int_field(key: u8, value: u64, buf: &mut Vec<u8>)
    ensures
        final(buf)@ == old(buf)@ + int_field(key, value),
{
    if value != 0 {
        buf.push(key);
        put_varint(value, buf);
        assert(buf@ =~= old(buf)@ + int_field(key, value));
    } else {
        assert(buf@ =~= old(buf)@ + int_field(key, value));
    }
}

/// Appends a length-prefixed field to `buf`.
pub fn write_len_field(key: u8, payload: &[u8], buf: &mut Vec<u8>)
    ensures
        final(buf)@ == old(buf)@ + len_field(key, payload@),
        payload@.len() <= u64::MAX,
{
    buf.push(key);
    put_varint(payload.len() as u64, buf);
    buf.extend_from_slice(payload);
    assert(buf@ =~= old(buf)@ + len_field(key, payload@));
}

/// Appends a byte-string field to `buf`.
pub fn write_bytes_field(key: u8, payload: &[u8], buf: &mut Vec<u8>)
    ensures
        final(buf)@ == old(buf)@ + bytes_field(key, payload@),
        payload@.len() <= u64::MAX,
{
    if payload.len() != 0 {
        write_len_field(key, payload, buf);
    } else {
        assert(buf@ =~= old(buf)@ + bytes_field(key, payload@));
    }
}

/// Appends a 64-bit field to `buf`.
pub fn write_fixed64_field(key: u8, value: u64, buf: &mut Vec<u8>)
    ensures
        final(buf)@ == old(buf)@ + fixed64_field(key, value),
{
    if value != 0 {
        buf.push(key);
        let body = u64_to_le_bytes(value);
        buf.extend_from_slice(body.as_slice());
        assert(buf@ =~= old(buf)@ + fixed64_field(key, value));
    } else {
        assert(buf@ =~= old(buf)@ + fixed64_field(key, value));
    }
}

/// Reads an integer field with the given key at `pos`: its value (zero where
/// there is no such field at `pos`) and the position after it.
pub fn read_int_field(buf: &[u8], pos: usize, key: u8) -> (result: Option<(u64, usize)>)
    requires
        pos <= buf.len(),
    ensures
        match result {
            Some((value, next)) => pos <= next <= buf.len() && parse_int_field(
                key,
                buf@.skip(pos as int),
            ) == Some((value, next - pos)),
            None => parse_int_field(key, buf@.skip(pos as int)) is None,
        },
{
    if pos < buf.len() && buf[pos] == key {
        proof {
            assert(buf@.skip(pos as int).skip(1) =~= buf@.skip(pos + 1));
        }
        match read_varint(buf, pos + 1) {
            Some((value, next)) => if value == 0 {
                None
            } else {
                Some((value, next))
            },
            None => None,
        }
    } else {
        Some((0, pos))
    }
}

/// Reads a length-prefixed field with the given key at `pos`: where its
/// payload starts, and the position after it.
pub fn read_len_field(buf: &[u8], pos: usize, key: u8) -> (result: Option<(usize, usize)>)
    requires
        pos <= buf.len(),
    ensures
        match result {
            Some((start, next)) => pos < start <= next <= buf.len() && parse_len_field(
                key,
                buf@.skip(pos as int),
            ) == Some((buf@.subrange(start as int, next as int), next - pos)),
            None => parse_len_field(key, buf@.skip(pos as int)) is None,
        },
{
    if pos < buf.len() && buf[pos] == key {
        proof {
            assert(buf@.skip(pos as int).skip(1) =~= buf@.skip(pos + 1));
        }
        match read_varint(buf, pos + 1) {
            Some((len, start)) => {
                if len <= (buf.len() - start) as u64 {
                    let next = start + len as usize;
                    proof {
                        let bytes = buf@.skip(pos as int);
                        let n = start - pos - 1;
                        assert(bytes.subrange(1 + n, 1 + n + len) =~= buf@.subrange(
                            start as int,
                            next as int,
                        ));
                    }
                    Some((start, next))
                } else {
                    None
                }
            },
            None => None,
        }
    } else {
        None
    }
}

/// Reads a byte-string field with the given key at `pos`: where its payload
/// starts (the payload is empty where there is no such field at `pos`), and
/// the position after it.
pub fn read_bytes_field(buf: &[u8], pos: usize, key: u8) -> (result: Option<(usize, usize)>)
    requires
        pos <= buf.len(),
    ensures
        match result {
            Some((start, next)) => pos <= start <= next <= buf.len() && parse_bytes_field(
                key,
                buf@.skip(pos as int),
            ) == Some((buf@.subrange(start as int, next as int), next - pos)),
            None => parse_bytes_field(key, buf@.skip(pos as int)) is None,
        },
{
    if pos < buf.len() && buf[pos] == key {
        match read_len_field(buf, pos, key) {
            Some((start, next)) => if start == next {
                None
            } else {
                Some((start, next))
            },
            None => None,
        }
    } else {
        proof {
            assert(buf@.subrange(pos as int, pos as int) =~= Seq::<u8>::empty());
        }
        Some((pos, pos))
    }
}

/// Reads a 64-bit field with the given key at `pos`: its value (zero where
/// there is no such field at `pos`) and the position after it.
pub fn read_fixed64_field(buf: &[u8], pos: usize, key: u8) -> (result: Option<(u64, usize)>)
    requires
        pos <= buf.len(),
    ensures
        match result {
            Some((value, next)) => pos <= next <= buf.len() && parse_fixed64_field(
                key,
                buf@.skip(pos as int),
            ) == Some((value, next - pos)),
            None => parse_fixed64_field(key, buf@.skip(pos as int)) is None,
        },
{
    if pos < buf.len() && buf[pos] == key {
        if buf.len() - pos >= 9 {
            let body = slice_subrange(buf, pos + 1, pos + 9);
            proof {
                assert(buf@.skip(pos as int).subrange(1, 9) =~= body@);
            }
            let value = u64_from_le_bytes(body);
            if value == 0 {
                None
            } else {
                Some((value, pos + 9))
            }
        } else {
            None
        }
    } else {
        Some((0, pos))
    }
}

/// Whether two byte strings are equal.
pub fn bytes_equal(a: &[u8], b: &[u8]) -> (equal: bool)
    ensures
        equal == (a@ == b@),
{
    if a.len() != b.len() {
        return false;
    }
    let mut i: usize = 0;
    while i < a.len()
        invariant
            i <= a.len(),
            a.len() == b.len(),
            forall|k: int| 0 <= k < i ==> a@[k] == b@[k],
        decreases a.len() - i,
    {
        if a[i] != b[i] {
            return false;
        }
        i = i + 1;
    }
    assert(a@ =~= b@);
    true
}

/// A copy of a byte string.
pub fn bytes_to_vec(bytes: &[u8]) -> (copy: Vec<u8>)
    ensures
        copy@ == bytes@,
{
    let mut copy: Vec<u8> = Vec::new();
    copy.extend_from_slice(bytes);
    copy
}

/// The text that `bytes` hold in UTF-8, or None where they hold none.
///
/// Calls `String::from_utf8` of the standard library, which returns the string
/// whose bytes are the given ones where these are valid UTF-8, and an error
/// where they are not.
#[verifier::external_body]
pub(crate) fn string_from_utf8(bytes: Vec<u8>) -> (text: Option<String>)
    ensures
        text is Some <==> valid_utf8(bytes@),
        text matches Some(t) ==> t@ == decode_utf8(bytes@),
{
    match String::from_utf8(bytes) {
        Ok(text) => Some(text),
        Err(_) => None,
    }
}

} // verus!
