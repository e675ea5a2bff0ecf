//! Wire primitives: base-128 varints, field keys, fixed-width integers,
//! length-delimited framing and groups, and the records that a message is made
//! of.

use crate::decode::DecodeError;
use vstd::bytes::*;
use vstd::prelude::*;
use vstd::slice::slice_subrange;

verus! {

/// The smallest field number that a key can carry.
pub const MIN_FIELD_NUMBER: u32 = 1;

/// The largest field number that a key can carry: 2^29 - 1.
pub const MAX_FIELD_NUMBER: u32 = 536_870_911;

/// How the value that follows a key is laid out.
#[derive(Clone, Copy, Debug, PartialEq, Eq, Structural)]
pub enum WireType {
    Varint,
    SixtyFourBit,
    LengthDelimited,
    StartGroup,
    EndGroup,
    ThirtyTwoBit,
}

/// The three low bits of a key that stand for a wire type.
pub open spec fn wire_type_code(wire_type: WireType) -> nat {
    match wire_type {
        WireType::Varint => 0,
        WireType::SixtyFourBit => 1,
        WireType::LengthDelimited => 2,
        WireType::StartGroup => 3,
        WireType::EndGroup => 4,
        WireType::ThirtyTwoBit => 5,
    }
}

/// The wire type that a code in `0..=5` stands for.
pub open spec fn wire_type_of_code(code: nat) -> WireType {
    if code == 0 {
        WireType::Varint
    } else if code == 1 {
        WireType::SixtyFourBit
    } else if code == 2 {
        WireType::LengthDelimited
    } else if code == 3 {
        WireType::StartGroup
    } else if code == 4 {
        WireType::EndGroup
    } else {
        WireType::ThirtyTwoBit
    }
}

/// The base-128 encoding of `v`: seven bits per byte, least significant group
/// first, the high bit set on every byte but the last.
pub open spec fn varint_bytes(v: nat) -> Seq<u8>
    decreases v,
{
    if v < 128 {
        seq![v as u8]
    } else {
        seq![(v % 128 + 128) as u8] + varint_bytes(v / 128)
    }
}

/// Reads a varint whose byte number `count` stands at `s[at]`. A varint has at
/// most ten bytes, and the tenth may only hold the one bit that is left of a
/// 64-bit value. The result is the value read from `at` on and the number of
/// bytes it took.
pub open spec fn varint_from(s: Seq<u8>, at: int, count: nat) -> Option<(nat, nat)>
    decreases 10 - count,
{
    if count >= 10 || at < 0 || at >= s.len() {
        None
    } else if s[at] < 128 {
        if count == 9 && s[at] >= 2 {
            None
        } else {
            Some((s[at] as nat, 1nat))
        }
    } else {
        match varint_from(s, at + 1, count + 1) {
            Some((v, n)) => Some((((s[at] - 128) + 128 * v) as nat, n + 1)),
            None => None,
        }
    }
}

/// The varint at the start of `s`: its value and its length in bytes, or
/// `None` where `s` does not start with a well-formed varint of 64 bits.
pub open spec fn parse_varint(s: Seq<u8>) -> Option<(nat, nat)> {
    varint_from(s, 0, 0)
}

/// The number that a key holds for a field number and a wire type.
pub open spec fn key_value(number: u32, wire_type: WireType) -> nat {
    (number * 8 + wire_type_code(wire_type)) as nat
}

/// The bytes of a key.
pub open spec fn key_bytes(number: u32, wire_type: WireType) -> Seq<u8> {
    varint_bytes(key_value(number, wire_type))
}

/// The key at the start of `s`: field number, wire type and length in bytes.
/// A key is a varint that fits 32 bits, whose three low bits are a wire type
/// and whose field number is not zero.
pub open spec fn parse_key(s: Seq<u8>) -> Option<(u32, WireType, nat)> {
    match parse_varint(s) {
        Some((key, n)) => if key <= u32::MAX && key % 8 <= 5 && key / 8 >= 1 {
            Some(((key / 8) as u32, wire_type_of_code(key % 8), n))
        } else {
            None
        },
        None => None,
    }
}

/// An upper bound on what is left to read of a 64-bit varint from byte number
/// `count` on: 2^(64 - 7 * count).
pub open spec fn varint_limit(count: nat) -> nat
    decreases 10 - count,
{
    if count >= 9 {
        2
    } else {
        128 * varint_limit(count + 1)
    }
}

pub proof fn lemma_varint_limit_zero()
    ensures
        varint_limit(0) == 0x1_0000_0000_0000_0000,
{
    reveal_with_fuel(varint_limit, 10);
}

/// What `varint_from` reads is bounded, and lies within `s`.
pub proof fn lemma_varint_from_bounds(s: Seq<u8>, at: int, count: nat)
    ensures
        match varint_from(s, at, count) {
            Some((v, n)) => v < varint_limit(count) && 1 <= n <= 10 - count && 0 <= at && at + n
                <= s.len(),
            None => true,
        },
    decreases 10 - count,
{
    if count >= 10 || at < 0 || at >= s.len() {
    } else if s[at] < 128 {
        if count < 9 {
            lemma_varint_limit_at_least(count);
        }
    } else {
        lemma_varint_from_bounds(s, at + 1, count + 1);
    }
}

proof fn lemma_varint_limit_at_least(count: nat)
    requires
        count < 9,
    ensures
        varint_limit(count) >= 128,
    decreases 10 - count,
{
    if count < 8 {
        lemma_varint_limit_at_least(count + 1);
    } else {
        assert(varint_limit(9) == 2);
    }
}

/// A parsed varint fits 64 bits and has between one and ten bytes, all of
/// them within `s`.
pub proof fn lemma_parse_varint_bounds(s: Seq<u8>)
    ensures
        match parse_varint(s) {
            Some((v, n)) => v <= u64::MAX && 1 <= n <= 10 && n <= s.len(),
            None => true,
        },
{
    lemma_varint_from_bounds(s, 0, 0);
    lemma_varint_limit_zero();
}

/// Reading where the bytes of `v` stand gives `v` back.
pub proof fn lemma_varint_from_bytes(s: Seq<u8>, at: int, count: nat, v: nat)
    requires
        count <= 9,
        v < varint_limit(count),
        0 <= at,
        at + varint_bytes(v).len() <= s.len(),
        s.subrange(at, at + varint_bytes(v).len()) == varint_bytes(v),
    ensures
        varint_from(s, at, count) == Some((v, varint_bytes(v).len())),
    decreases v,
{
    let vb = varint_bytes(v);
    assert(s[at] == s.subrange(at, at + vb.len())[0]);
    if v >= 128 {
        assert(count < 9);
        let tail = varint_bytes(v / 128);
        assert(vb.len() == tail.len() + 1);
        assert(s.subrange(at + 1, at + 1 + tail.len()) =~= tail) by {
            assert forall|i: int| 0 <= i < tail.len() implies s.subrange(
                at + 1,
                at + 1 + tail.len(),
            )[i] == tail[i] by {
                assert(s[at + 1 + i] == s.subrange(at, at + vb.len())[i + 1]);
            }
        }
        lemma_varint_from_bytes(s, at + 1, count + 1, v / 128);
    }
}

/// A varint that stands before any other bytes is read back from them.
pub proof fn lemma_parse_varint_bytes(v: nat, rest: Seq<u8>)
    requires
        v <= u64::MAX,
    ensures
        parse_varint(varint_bytes(v) + rest) == Some((v, varint_bytes(v).len())),
{
    lemma_varint_limit_zero();
    let s = varint_bytes(v) + rest;
    assert(s.subrange(0, varint_bytes(v).len() as int) =~= varint_bytes(v));
    lemma_varint_from_bytes(s, 0, 0, v);
}

/// The key of a field number in range is read back from its bytes.
pub proof fn lemma_parse_key_bytes(number: u32, wire_type: WireType, rest: Seq<u8>)
    requires
        MIN_FIELD_NUMBER <= number <= MAX_FIELD_NUMBER,
    ensures
        parse_key(key_bytes(number, wire_type) + rest) == Some(
            (number, wire_type, key_bytes(number, wire_type).len()),
        ),
{
    lemma_parse_varint_bytes(key_value(number, wire_type), rest);
}

/// Trusted: `prost::encoding::encode_varint` on a `Vec<u8>`. It appends the
/// base-128 encoding of `value` to the buffer and leaves what was there.
#[verifier::external_body]
fn prost_encode_varint(value: u64, buf: &mut Vec<u8>)
    ensures
        final(buf)@ == old(buf)@ + varint_bytes(value as nat),
{
    prost::encoding::encode_varint(value, buf)
}

/// Trusted: `prost::encoding::decode_varint` on a byte slice. It succeeds
/// exactly where the slice starts with a varint of at most ten bytes whose
/// value fits 64 bits, and then returns that value and the number of bytes
/// that are left behind it; where it fails, the result is `None`.
#[verifier::external_body]
fn prost_decode_varint(buf: &[u8]) -> (r: Option<(u64, usize)>)
    ensures
        match r {
            Some((value, left)) => left <= buf@.len() && parse_varint(buf@) == Some(
                (value as nat, (buf@.len() - left) as nat),
            ),
            None => parse_varint(buf@) is None,
        },
{
    let mut rest = buf;
    let value = prost::encoding::decode_varint(&mut rest).ok()?;
    Some((value, rest.len()))
}

/// Trusted: `prost::encoding::encode_key` on a `Vec<u8>`. For a field number
/// in range it appends the varint of `number * 8 + code`, where `code` is the
/// wire type's number.
#[verifier::external_body]
fn prost_encode_key(number: u32, wire_type: WireType, buf: &mut Vec<u8>)
    requires
        MIN_FIELD_NUMBER <= number <= MAX_FIELD_NUMBER,
    ensures
        final(buf)@ == old(buf)@ + key_bytes(number, wire_type),
{
    let wire_type = match wire_type {
        WireType::Varint => prost::encoding::WireType::Varint,
        WireType::SixtyFourBit => prost::encoding::WireType::SixtyFourBit,
        WireType::LengthDelimited => prost::encoding::WireType::LengthDelimited,
        WireType::StartGroup => prost::encoding::WireType::StartGroup,
        WireType::EndGroup => prost::encoding::WireType::EndGroup,
        WireType::ThirtyTwoBit => prost::encoding::WireType::ThirtyTwoBit,
    };
    prost::encoding::encode_key(number, wire_type, buf)
}

/// Trusted: `prost::encoding::decode_key` on a byte slice. It succeeds exactly
/// where the slice starts with a varint that fits 32 bits, whose three low
/// bits are at most 5 and whose remaining bits are not all zero; it then
/// returns the field number, the wire type and the number of bytes left; where
/// it fails, the result is `None`.
#[verifier::external_body]
fn prost_decode_key(buf: &[u8]) -> (r: Option<(u32, WireType, usize)>)
    ensures
        match r {
            Some((number, wire_type, left)) => left <= buf@.len() && parse_key(buf@) == Some(
                (number, wire_type, (buf@.len() - left) as nat),
            ),
            None => parse_key(buf@) is None,
        },
{
    let mut rest = buf;
    let (number, wire_type) = prost::encoding::decode_key(&mut rest).ok()?;
    let wire_type = match wire_type {
        prost::encoding::WireType::Varint => WireType::Varint,
        prost::encoding::WireType::SixtyFourBit => WireType::SixtyFourBit,
        prost::encoding::WireType::LengthDelimited => WireType::LengthDelimited,
        prost::encoding::WireType::StartGroup => WireType::StartGroup,
        prost::encoding::WireType::EndGroup => WireType::EndGroup,
        prost::encoding::WireType::ThirtyTwoBit => WireType::ThirtyTwoBit,
    };
    Some((number, wire_type, rest.len()))
}

/// Appends the varint of `value` to `buf`.
pub fn encode_varint(value: u64, buf: &mut Vec<u8>)
    ensures
        final(buf)@ == old(buf)@ + varint_bytes(value as nat),
{
    prost_encode_varint(value, buf)
}

/// Reads the varint at the start of `buf`; returns its value and its length
/// in bytes. Fails with `InvalidData` exactly where no well-formed varint of 64
/// bits stands there.
pub fn decode_varint(buf: &[u8]) -> (r: Result<(u64, usize), DecodeError>)
    ensures
        match r {
            Ok((value, n)) => parse_varint(buf@) == Some((value as nat, n as nat)),
            Err(e) => e == DecodeError::InvalidData && parse_varint(buf@) is None,
        },
{
    match prost_decode_varint(buf) {
        Some((value, left)) => Ok((value, buf.len() - left)),
        None => Err(DecodeError::InvalidData),
    }
}

/// Appends the key of a field to `buf`.
pub fn encode_key(number: u32, wire_type: WireType, buf: &mut Vec<u8>)
    requires
        MIN_FIELD_NUMBER <= number <= MAX_FIELD_NUMBER,
    ensures
        final(buf)@ == old(buf)@ + key_bytes(number, wire_type),
{
    prost_encode_key(number, wire_type, buf)
}

/// Reads the key at the start of `buf`; returns the field number, the wire
/// type and the key's length in bytes. Fails with `InvalidData` exactly where
/// no well-formed key stands there.
pub fn decode_key(buf: &[u8]) -> (r: Result<(u32, WireType, usize), DecodeError>)
    ensures
        match r {
            Ok((number, wire_type, n)) => parse_key(buf@) == Some((number, wire_type, n as nat)),
            Err(e) => e == DecodeError::InvalidData && parse_key(buf@) is None,
        },
{
    match prost_decode_key(buf) {
        Some((number, wire_type, left)) => Ok((number, wire_type, buf.len() - left)),
        None => Err(DecodeError::InvalidData),
    }
}

/// Appends `bytes` to `buf`.
pub fn append_bytes(buf: &mut Vec<u8>, bytes: &[u8])
    ensures
        final(buf)@ == old(buf)@ + bytes@,
{
    buf.extend_from_slice(bytes);
    assert(buf@ =~= old(buf)@ + bytes@);
}

/// The value that follows a key, as the wire type lays it out.
pub enum Payload {
    Varint(u64),
    Fixed64(u64),
    Delimited(Seq<u8>),
    Fixed32(u32),
    /// What follows the key that opens a group: the records of the group and
    /// the key that closes it, as they stand on the wire.
    Group(Seq<u8>),
}

/// One occurrence of a field on the wire.
pub struct Record {
    pub number: u32,
    pub payload: Payload,
}

/// The wire type under which a payload is written.
pub open spec fn payload_wire_type(payload: Payload) -> WireType {
    match payload {
        Payload::Varint(_) => WireType::Varint,
        Payload::Fixed64(_) => WireType::SixtyFourBit,
        Payload::Delimited(_) => WireType::LengthDelimited,
        Payload::Fixed32(_) => WireType::ThirtyTwoBit,
        Payload::Group(_) => WireType::StartGroup,
    }
}

/// The bytes of a payload: a varint, eight or four bytes with the least
/// significant first, a length as a varint and then that many bytes, or the
/// bytes of a group as they are.
pub open spec fn payload_bytes(payload: Payload) -> Seq<u8> {
    match payload {
        Payload::Varint(v) => varint_bytes(v as nat),
        Payload::Fixed64(v) => spec_u64_to_le_bytes(v),
        Payload::Delimited(b) => varint_bytes(b.len()) + b,
        Payload::Fixed32(v) => spec_u32_to_le_bytes(v),
        Payload::Group(b) => b,
    }
}

/// The number of bytes that a delimited payload holds; 0 for the others.
pub open spec fn payload_len(payload: Payload) -> nat {
    match payload {
        Payload::Delimited(b) => b.len(),
        _ => 0,
    }
}

/// A payload, where a length of 64 bits can count the bytes it holds, as the
/// length before a delimited payload must.
pub open spec fn fitting(payload: Payload) -> Option<Payload> {
    if payload_len(payload) <= u64::MAX {
        Some(payload)
    } else {
        None
    }
}

/// The bytes of a record: its key, then its payload.
pub open spec fn record_bytes(record: Record) -> Seq<u8> {
    key_bytes(record.number, payload_wire_type(record.payload)) + payload_bytes(record.payload)
}

/// The records that the encoder writes: the field number is in range, a
/// delimited payload has a length that fits 64 bits, and the record is no
/// group.
pub open spec fn record_valid(record: Record) -> bool {
    &&& MIN_FIELD_NUMBER <= record.number <= MAX_FIELD_NUMBER
    &&& match record.payload {
        Payload::Delimited(b) => b.len() <= u64::MAX,
        Payload::Group(_) => false,
        _ => true,
    }
}

/// The bytes of a sequence of records, one after the other.
pub open spec fn records_bytes(records: Seq<Record>) -> Seq<u8>
    decreases records.len(),
{
    if records.len() == 0 {
        Seq::empty()
    } else {
        record_bytes(records[0]) + records_bytes(records.skip(1))
    }
}

/// The payload of the given wire type at the start of `s`, and its length in
/// bytes, for the four wire types whose payload stands alone. What follows
/// the key of a group is read by `group_len`.
pub open spec fn parse_payload(wire_type: WireType, s: Seq<u8>) -> Option<(Payload, nat)> {
    match wire_type {
        WireType::Varint => match parse_varint(s) {
            Some((v, n)) => Some((Payload::Varint(v as u64), n)),
            None => None,
        },
        WireType::SixtyFourBit => if s.len() >= 8 {
            Some((Payload::Fixed64(spec_u64_from_le_bytes(s.subrange(0, 8))), 8nat))
        } else {
            None
        },
        WireType::LengthDelimited => match parse_varint(s) {
            Some((len, n)) => if n + len <= s.len() {
                Some((Payload::Delimited(s.subrange(n as int, (n + len) as int)), n + len))
            } else {
                None
            },
            None => None,
        },
        WireType::ThirtyTwoBit => if s.len() >= 4 {
            Some((Payload::Fixed32(spec_u32_from_le_bytes(s.subrange(0, 4))), 4nat))
        } else {
            None
        },
        WireType::StartGroup => None,
        WireType::EndGroup => None,
    }
}

/// The length of what is left of a group of the given field number at the
/// start of `s`: records, each with its payload or with a group of its own,
/// up to and with the key that closes the group. `None` where the bytes end
/// before that key, a record is malformed, or a group is closed under
/// another number than it was opened.
pub open spec fn group_len(s: Seq<u8>, number: u32) -> Option<nat>
    decreases s.len(), 0nat,
{
    match parse_key(s) {
        Some((inner, wire_type, n)) => if wire_type == WireType::EndGroup {
            if inner == number {
                Some(n)
            } else {
                None
            }
        } else if 0 < n <= s.len() {
            match skipped_len(wire_type, inner, s.skip(n as int)) {
                Some(m) => if m <= s.len() - n {
                    match group_len(s.skip((n + m) as int), number) {
                        Some(rest) => Some(n + m + rest),
                        None => None,
                    }
                } else {
                    None
                },
                None => None,
            }
        } else {
            None
        },
        None => None,
    }
}

/// The length of what follows the key of a record of the given wire type
/// and field number at the start of `s`.
pub open spec fn skipped_len(wire_type: WireType, number: u32, s: Seq<u8>) -> Option<nat>
    decreases s.len(), 1nat,
{
    match wire_type {
        WireType::StartGroup => group_len(s, number),
        WireType::EndGroup => None,
        _ => match parse_payload(wire_type, s) {
            Some((_, m)) => Some(m),
            None => None,
        },
    }
}

/// The record at the start of `s`, and its length in bytes. A key that
/// closes a group is no record.
pub open spec fn parse_record(s: Seq<u8>) -> Option<(Record, nat)> {
    match parse_key(s) {
        Some((number, wire_type, n)) => if wire_type == WireType::StartGroup {
            match group_len(s.skip(n as int), number) {
                Some(m) => if n + m <= s.len() {
                    Some(
                        (
                            Record {
                                number,
                                payload: Payload::Group(s.subrange(n as int, (n + m) as int)),
                            },
                            n + m,
                        ),
                    )
                } else {
                    None
                },
                None => None,
            }
        } else {
            match parse_payload(wire_type, s.skip(n as int)) {
                Some((payload, m)) => Some((Record { number, payload }, n + m)),
                None => None,
            }
        },
        None => None,
    }
}

/// What is left of a group takes at least one byte and lies within `s`.
pub proof fn lemma_group_len_bounds(s: Seq<u8>, number: u32)
    ensures
        group_len(s, number) matches Some(m) ==> 1 <= m <= s.len(),
    decreases s.len(),
{
    lemma_parse_varint_bounds(s);
    match parse_key(s) {
        Some((inner, wire_type, n)) => {
            if wire_type != WireType::EndGroup {
                let after = s.skip(n as int);
                if wire_type == WireType::StartGroup {
                    lemma_group_len_bounds(after, inner);
                } else {
                    lemma_parse_payload_bounds(wire_type, after);
                }
                match skipped_len(wire_type, inner, after) {
                    Some(m) => {
                        if m <= s.len() - n {
                            lemma_group_len_bounds(s.skip((n + m) as int), number);
                        }
                    },
                    None => {},
                }
            }
        },
        None => {},
    }
}

/// A record that was read has a field number in range, took at least two
/// bytes, and lies within `s`; a delimited payload is shorter than what was
/// read.
pub proof fn lemma_parse_record_bounds(s: Seq<u8>)
    ensures
        match parse_record(s) {
            Some((record, n)) => {
                &&& MIN_FIELD_NUMBER <= record.number <= MAX_FIELD_NUMBER
                &&& 2 <= n <= s.len()
                &&& match record.payload {
                    Payload::Delimited(b) => b.len() + 2 <= n && b.len() <= u64::MAX,
                    _ => true,
                }
            },
            None => true,
        },
{
    lemma_parse_varint_bounds(s);
    match parse_key(s) {
        Some((number, wire_type, n)) => {
            lemma_parse_varint_bounds(s.skip(n as int));
            lemma_group_len_bounds(s.skip(n as int), number);
        },
        None => {},
    }
}

/// A payload that was read took at least one byte and lies within `s`.
pub proof fn lemma_parse_payload_bounds(wire_type: WireType, s: Seq<u8>)
    ensures
        match parse_payload(wire_type, s) {
            Some((payload, n)) => 1 <= n <= s.len(),
            None => true,
        },
{
    lemma_parse_varint_bounds(s);
}

/// A payload that stands before any other bytes is read back from them.
pub proof fn lemma_parse_payload_bytes(payload: Payload, rest: Seq<u8>)
    requires
        payload matches Payload::Delimited(b) ==> b.len() <= u64::MAX,
        !(payload is Group),
    ensures
        parse_payload(payload_wire_type(payload), payload_bytes(payload) + rest) == Some(
            (payload, payload_bytes(payload).len()),
        ),
{
    let s = payload_bytes(payload) + rest;
    match payload {
        Payload::Varint(v) => {
            lemma_parse_varint_bytes(v as nat, rest);
        },
        Payload::Fixed64(v) => {
            lemma_auto_spec_u64_to_from_le_bytes();
            assert(s.subrange(0, 8) =~= spec_u64_to_le_bytes(v));
        },
        Payload::Delimited(b) => {
            let head = varint_bytes(b.len());
            assert(s =~= head + (b + rest));
            lemma_parse_varint_bytes(b.len(), b + rest);
            assert(s.subrange(head.len() as int, (head.len() + b.len()) as int) =~= b);
        },
        Payload::Fixed32(v) => {
            lemma_auto_spec_u32_to_from_le_bytes();
            assert(s.subrange(0, 4) =~= spec_u32_to_le_bytes(v));
        },
        Payload::Group(_) => {},
    }
}

/// A valid record that stands before any other bytes is read back from them.
pub proof fn lemma_parse_record_bytes(record: Record, rest: Seq<u8>)
    requires
        record_valid(record),
    ensures
        parse_record(record_bytes(record) + rest) == Some((record, record_bytes(record).len())),
{
    let wire_type = payload_wire_type(record.payload);
    let key = key_bytes(record.number, wire_type);
    let body = payload_bytes(record.payload);
    let s = record_bytes(record) + rest;
    assert(s =~= key + (body + rest));
    lemma_parse_key_bytes(record.number, wire_type, body + rest);
    assert(s.skip(key.len() as int) =~= body + rest);
    lemma_parse_payload_bytes(record.payload, rest);
}

/// The bytes of two sequences of records, one after the other, are the bytes
/// of the first followed by those of the second.
pub proof fn lemma_records_bytes_concat(a: Seq<Record>, b: Seq<Record>)
    ensures
        records_bytes(a + b) == records_bytes(a) + records_bytes(b),
    decreases a.len(),
{
    if a.len() == 0 {
        assert(a + b =~= b);
        assert(records_bytes(a) + records_bytes(b) =~= records_bytes(b));
    } else {
        assert((a + b).skip(1) =~= a.skip(1) + b);
        lemma_records_bytes_concat(a.skip(1), b);
        assert(records_bytes(a + b) =~= records_bytes(a) + records_bytes(b));
    }
}

/// The bytes of a single record, taken as a sequence of one.
pub proof fn lemma_records_bytes_one(record: Record)
    ensures
        records_bytes(seq![record]) == record_bytes(record),
{
    assert(seq![record].skip(1) =~= Seq::<Record>::empty());
    assert(records_bytes(seq![record].skip(1)) =~= Seq::<u8>::empty());
    assert(records_bytes(seq![record]) =~= record_bytes(record));
}

/// The bytes of a sequence of records with one more record behind it.
pub proof fn lemma_records_bytes_push(records: Seq<Record>, record: Record)
    ensures
        records_bytes(records.push(record)) == records_bytes(records) + record_bytes(record),
{
    assert(records.push(record) =~= records + seq![record]);
    lemma_records_bytes_concat(records, seq![record]);
    lemma_records_bytes_one(record);
}

/// The payload of a record that was read; a delimited payload borrows from the
/// bytes it was read from.
#[derive(Clone, Copy, Debug)]
pub enum WirePayload<'a> {
    Varint(u64),
    Fixed64(u64),
    Delimited(&'a [u8]),
    Fixed32(u32),
    Group(&'a [u8]),
}

impl<'a> View for WirePayload<'a> {
    type V = Payload;

    open spec fn view(&self) -> Payload {
        match self {
            WirePayload::Varint(v) => Payload::Varint(*v),
            WirePayload::Fixed64(v) => Payload::Fixed64(*v),
            WirePayload::Delimited(b) => Payload::Delimited(b@),
            WirePayload::Fixed32(v) => Payload::Fixed32(*v),
            WirePayload::Group(b) => Payload::Group(b@),
        }
    }
}

/// A payload that is held in memory fits.
pub proof fn lemma_wire_payload_fits(payload: WirePayload)
    ensures
        fitting(payload@) == Some(payload@),
{
    match payload {
        WirePayload::Delimited(b) => {
            assert(b@.len() == b.len());
        },
        _ => {},
    }
}

/// A record that was read.
#[derive(Clone, Copy, Debug)]
pub struct WireRecord<'a> {
    pub number: u32,
    pub payload: WirePayload<'a>,
}

impl<'a> View for WireRecord<'a> {
    type V = Record;

    open spec fn view(&self) -> Record {
        Record { number: self.number, payload: self.payload@ }
    }
}

/// Appends a payload to `buf`.
pub fn write_payload(payload: &WirePayload, buf: &mut Vec<u8>)
    ensures
        final(buf)@ == old(buf)@ + payload_bytes(payload@),
{
    match payload {
        WirePayload::Varint(v) => encode_varint(*v, buf),
        WirePayload::Fixed64(v) => {
            let bytes = u64_to_le_bytes(*v);
            append_bytes(buf, bytes.as_slice());
        },
        WirePayload::Delimited(b) => {
            let len: u64 = b.len() as u64;
            encode_varint(len, buf);
            append_bytes(buf, b);
            assert(buf@ =~= old(buf)@ + (varint_bytes(b@.len()) + b@));
        },
        WirePayload::Fixed32(v) => {
            let bytes = u32_to_le_bytes(*v);
            append_bytes(buf, bytes.as_slice());
        },
        WirePayload::Group(b) => append_bytes(buf, b),
    }
}

/// Appends a record to `buf`: its key, then its payload.
pub fn write_record(record: &WireRecord, buf: &mut Vec<u8>)
    requires
        MIN_FIELD_NUMBER <= record.number <= MAX_FIELD_NUMBER,
    ensures
        final(buf)@ == old(buf)@ + record_bytes(record@),
{
    let wire_type = match record.payload {
        WirePayload::Varint(_) => WireType::Varint,
        WirePayload::Fixed64(_) => WireType::SixtyFourBit,
        WirePayload::Delimited(_) => WireType::LengthDelimited,
        WirePayload::Fixed32(_) => WireType::ThirtyTwoBit,
        WirePayload::Group(_) => WireType::StartGroup,
    };
    encode_key(record.number, wire_type, buf);
    write_payload(&record.payload, buf);
    assert(buf@ =~= old(buf)@ + record_bytes(record@));
}

/// Reads the payload of the given wire type at the start of `buf`; returns it
/// with its length in bytes. Fails with `InvalidData` exactly where the bytes
/// are malformed or too few, or the wire type is one of the two group types.
pub fn read_payload<'a>(wire_type: WireType, buf: &'a [u8]) -> (r: Result<
    (WirePayload<'a>, usize),
    DecodeError,
>)
    ensures
        match r {
            Ok((payload, n)) => parse_payload(wire_type, buf@) == Some((payload@, n as nat)),
            Err(e) => e == DecodeError::InvalidData && parse_payload(wire_type, buf@) is None,
        },
{
    proof {
        lemma_parse_varint_bounds(buf@);
    }
    match wire_type {
        WireType::Varint => {
            match decode_varint(buf) {
                Ok((v, n)) => Ok((WirePayload::Varint(v), n)),
                Err(e) => Err(e),
            }
        },
        WireType::SixtyFourBit => {
            if buf.len() >= 8 {
                let v: u64 = u64_from_le_bytes(slice_subrange(buf, 0, 8));
                Ok((WirePayload::Fixed64(v), 8))
            } else {
                Err(DecodeError::InvalidData)
            }
        },
        WireType::LengthDelimited => {
            match decode_varint(buf) {
                Ok((len, n)) => {
                    let left: usize = buf.len() - n;
                    if len <= left as u64 {
                        let end: usize = n + len as usize;
                        Ok((WirePayload::Delimited(slice_subrange(buf, n, end)), end))
                    } else {
                        Err(DecodeError::InvalidData)
                    }
                },
                Err(e) => Err(e),
            }
        },
        WireType::ThirtyTwoBit => {
            if buf.len() >= 4 {
                let v: u32 = u32_from_le_bytes(slice_subrange(buf, 0, 4));
                Ok((WirePayload::Fixed32(v), 4))
            } else {
                Err(DecodeError::InvalidData)
            }
        },
        WireType::StartGroup => Err(DecodeError::InvalidData),
        WireType::EndGroup => Err(DecodeError::InvalidData),
    }
}

/// What `group_len` gives from `pos` on, counted from the start of `s`.
pub open spec fn group_len_from(s: Seq<u8>, number: u32, pos: nat) -> Option<nat> {
    match group_len(s.skip(pos as int), number) {
        Some(rest) => Some(pos + rest),
        None => None,
    }
}

/// Finds the end of a group of the given field number whose records start
/// at the start of `buf`; returns the length up to and with the key that
/// closes the group. Fails with `InvalidData` exactly where `group_len` gives
/// none.
pub fn skip_group(buf: &[u8], number: u32) -> (r: Result<usize, DecodeError>)
    ensures
        match r {
            Ok(m) => group_len(buf@, number) == Some(m as nat),
            Err(e) => e == DecodeError::InvalidData && group_len(buf@, number) is None,
        },
    decreases buf@.len(),
{
    let mut pos: usize = 0;
    assert(buf@.skip(0) =~= buf@);
    loop
        invariant
            pos <= buf@.len(),
            group_len(buf@, number) == group_len_from(buf@, number, pos as nat),
        decreases buf@.len() - pos,
    {
        let rest = slice_subrange(buf, pos, buf.len());
        assert(rest@ =~= buf@.skip(pos as int));
        proof {
            lemma_parse_varint_bounds(rest@);
        }
        match decode_key(rest) {
            Ok((inner, wire_type, n)) => {
                if wire_type == WireType::EndGroup {
                    if inner == number {
                        assert(group_len(rest@, number) == Some(n as nat));
                        return Ok(pos + n);
                    } else {
                        assert(group_len(rest@, number) is None);
                        return Err(DecodeError::InvalidData);
                    }
                }
                let after = slice_subrange(rest, n, rest.len());
                assert(after@ =~= rest@.skip(n as int));
                let skipped: Result<usize, DecodeError> = if wire_type == WireType::StartGroup {
                    skip_group(after, inner)
                } else {
                    match read_payload(wire_type, after) {
                        Ok((_, m)) => Ok(m),
                        Err(e) => Err(e),
                    }
                };
                match skipped {
                    Ok(m) => {
                        proof {
                            lemma_group_len_bounds(after@, inner);
                            lemma_parse_payload_bounds(wire_type, after@);
                            assert(skipped_len(wire_type, inner, after@) == Some(m as nat));
                            assert(m <= rest@.len() - n);
                            assert(rest@.skip((n + m) as int) =~= buf@.skip(pos + n + m));
                            assert(group_len(rest@, number) == match group_len(
                                rest@.skip((n + m) as int),
                                number,
                            ) {
                                Some(left) => Some((n + m + left) as nat),
                                None => None,
                            });
                        }
                        pos = pos + n + m;
                    },
                    Err(e) => {
                        assert(skipped_len(wire_type, inner, after@) is None);
                        assert(group_len(rest@, number) is None);
                        return Err(e);
                    },
                }
            },
            Err(e) => {
                assert(group_len(rest@, number) is None);
                return Err(e);
            },
        }
    }
}

/// Reads the record at the start of `buf`; returns it with its length in
/// bytes. A group is read as one record, from the key that opens it to the
/// key that closes it. Fails with `InvalidData` exactly where no well-formed
/// record stands there.
pub fn read_record<'a>(buf: &'a [u8]) -> (r: Result<(WireRecord<'a>, usize), DecodeError>)
    ensures
        match r {
            Ok((record, n)) => parse_record(buf@) == Some((record@, n as nat)),
            Err(e) => e == DecodeError::InvalidData && parse_record(buf@) is None,
        },
{
    proof {
        lemma_parse_varint_bounds(buf@);
    }
    match decode_key(buf) {
        Ok((number, wire_type, n)) => {
            let rest = slice_subrange(buf, n, buf.len());
            assert(rest@ =~= buf@.skip(n as int));
            proof {
                lemma_parse_varint_bounds(rest@);
                lemma_group_len_bounds(rest@, number);
            }
            if wire_type == WireType::StartGroup {
                match skip_group(rest, number) {
                    Ok(m) => {
                        let group = slice_subrange(buf, n, n + m);
                        Ok((WireRecord { number, payload: WirePayload::Group(group) }, n + m))
                    },
                    Err(e) => Err(e),
                }
            } else {
                match read_payload(wire_type, rest) {
                    Ok((payload, m)) => Ok((WireRecord { number, payload }, n + m)),
                    Err(e) => Err(e),
                }
            }
        },
        Err(e) => Err(e),
    }
}

} // verus!
