//! The message decoder: what the instance of a sequence of wire bytes is, and
//! the function that reads it.

use crate::betterproto_interop::message::{
    lemma_list_view, lemma_message_view, values_view, BetterprotoMessage, Value, ValueView,
};
use crate::decode::error::DecodeError;
use crate::descriptors::{
    find_field, ElementKind, FieldDescriptor, FieldKind, FieldView, MessageDescriptor, ScalarKind,
    Schema,
};
use crate::encode::message::{entry_descriptor_of, nested_descriptor, zero_value};
use crate::well_known_types::{duration_value, timestamp_value, Duration, Timestamp};
use crate::wire::{
    lemma_parse_record_bounds, parse_payload, parse_record, payload_len, read_payload,
    read_record, Payload, Record, WirePayload, WireRecord, WireType,
};
use vstd::prelude::*;
use vstd::slice::{slice_subrange, slice_to_vec};
use vstd::string::{StringExecFns, StringSliceAdditionalSpecFns};
use vstd::utf8::{decode_utf8, encode_utf8_decode_utf8, valid_utf8};

verus! {

/// The scalar of the given kind that a payload stands for. Integers keep the
/// low bits that their kind has room for; a string must be valid UTF-8.
/// `InvalidData` where the payload's wire type is not the kind's own.
pub open spec fn decoded_scalar(kind: ScalarKind, payload: Payload) -> Result<
    ValueView,
    DecodeError,
> {
    match (kind, payload) {
        (ScalarKind::Bool, Payload::Varint(v)) => Ok(ValueView::Bool(v != 0)),
        (ScalarKind::Int32, Payload::Varint(v)) => Ok(ValueView::Int32(v as i32)),
        (ScalarKind::Int64, Payload::Varint(v)) => Ok(ValueView::Int64(v as i64)),
        (ScalarKind::UInt32, Payload::Varint(v)) => Ok(ValueView::UInt32(v as u32)),
        (ScalarKind::UInt64, Payload::Varint(v)) => Ok(ValueView::UInt64(v)),
        (ScalarKind::Float, Payload::Fixed32(v)) => Ok(ValueView::Float(v)),
        (ScalarKind::Double, Payload::Fixed64(v)) => Ok(ValueView::Double(v)),
        (ScalarKind::String, Payload::Delimited(b)) => if valid_utf8(b) {
            Ok(ValueView::Str(decode_utf8(b)))
        } else {
            Err(DecodeError::InvalidData)
        },
        (ScalarKind::Bytes, Payload::Delimited(b)) => Ok(ValueView::Bytes(b)),
        _ => Err(DecodeError::InvalidData),
    }
}

/// The wire type under which the values of a kind stand side by side in a
/// packed list, for the kinds that can be packed: numbers, booleans and
/// enumerations.
pub open spec fn packed_wire_type(kind: ElementKind) -> Option<WireType> {
    match kind {
        ElementKind::Scalar(ScalarKind::Float) => Some(WireType::ThirtyTwoBit),
        ElementKind::Scalar(ScalarKind::Double) => Some(WireType::SixtyFourBit),
        ElementKind::Scalar(ScalarKind::String) => None,
        ElementKind::Scalar(ScalarKind::Bytes) => None,
        ElementKind::Scalar(_) => Some(WireType::Varint),
        ElementKind::Enum => Some(WireType::Varint),
        _ => None,
    }
}

/// The scalar or enumeration value that a payload stands for.
pub open spec fn decoded_plain(kind: ElementKind, payload: Payload) -> Result<
    ValueView,
    DecodeError,
> {
    match kind {
        ElementKind::Scalar(k) => decoded_scalar(k, payload),
        ElementKind::Enum => match payload {
            Payload::Varint(v) => Ok(ValueView::Enum(v as i32)),
            _ => Err(DecodeError::InvalidData),
        },
        _ => Err(DecodeError::InvalidData),
    }
}

/// The values of a packed list: payloads of the given wire type, one after
/// the other, until the bytes end.
pub open spec fn decoded_packed(kind: ElementKind, wire_type: WireType, s: Seq<u8>) -> Result<
    Seq<ValueView>,
    DecodeError,
>
    decreases s.len(),
{
    if s.len() == 0 {
        Ok(Seq::empty())
    } else {
        match parse_payload(wire_type, s) {
            Some((payload, n)) => if 0 < n <= s.len() {
                match decoded_plain(kind, payload) {
                    Ok(value) => match decoded_packed(kind, wire_type, s.skip(n as int)) {
                        Ok(rest) => Ok(seq![value] + rest),
                        Err(e) => Err(e),
                    },
                    Err(e) => Err(e),
                }
            } else {
                Err(DecodeError::InvalidData)
            },
            None => Err(DecodeError::InvalidData),
        }
    }
}

/// The descriptor of a nullable scalar's message: the scalar under number 1.
pub open spec fn wrapper_descriptor(kind: ScalarKind) -> Seq<FieldView> {
    seq![
        FieldView {
            number: 1,
            name: "value"@,
            kind: FieldKind::Single(ElementKind::Scalar(kind)),
            oneof_group: None,
        },
    ]
}

/// The descriptor of a duration's or a timestamp's message: the seconds
/// under number 1 and the nanoseconds under number 2.
pub open spec fn temporal_descriptor() -> Seq<FieldView> {
    seq![
        FieldView {
            number: 1,
            name: "seconds"@,
            kind: FieldKind::Single(ElementKind::Scalar(ScalarKind::Int64)),
            oneof_group: None,
        },
        FieldView {
            number: 2,
            name: "nanos"@,
            kind: FieldKind::Single(ElementKind::Scalar(ScalarKind::Int32)),
            oneof_group: None,
        },
    ]
}

/// The value that a field has on a fresh instance: nothing for a member of a
/// oneof group and for a message, a nullable scalar or a temporal value; zero
/// for another scalar or enumeration; the empty list for a repeated field.
pub open spec fn default_value(field: FieldView) -> ValueView {
    match field.kind {
        FieldKind::Single(ElementKind::Scalar(k)) => if field.oneof_group is Some {
            ValueView::Null
        } else {
            zero_value(k)
        },
        FieldKind::Single(ElementKind::Enum) => if field.oneof_group is Some {
            ValueView::Null
        } else {
            ValueView::Enum(0)
        },
        FieldKind::Single(_) => ValueView::Null,
        FieldKind::Repeated(_) => ValueView::List(Seq::empty()),
    }
}

/// The values of a fresh instance.
pub open spec fn default_values(desc: Seq<FieldView>) -> Seq<ValueView> {
    Seq::new(desc.len(), |i: int| default_value(desc[i]))
}

/// The items of a list; none for any other value.
pub open spec fn list_items(value: ValueView) -> Seq<ValueView> {
    match value {
        ValueView::List(items) => items,
        _ => Seq::empty(),
    }
}

/// The values of an instance after field `i` was given `value`: where the
/// field belongs to a oneof group, every other member of that group holds
/// nothing.
pub open spec fn store(desc: Seq<FieldView>, state: Seq<ValueView>, i: int, value: ValueView) -> Seq<
    ValueView,
> {
    Seq::new(
        state.len(),
        |j: int|
            if j == i {
                value
            } else if 0 <= j < desc.len() && desc[i].oneof_group is Some && desc[j].oneof_group
                == desc[i].oneof_group {
                ValueView::Null
            } else {
                state[j]
            },
    )
}

/// The scalar that the message of a nullable scalar stands for: what its
/// field 1 holds after the bytes were read, zero where no record set it.
pub open spec fn decoded_wrapped(kind: ScalarKind, s: Seq<u8>) -> Result<ValueView, DecodeError>
    decreases s.len(), 2nat,
{
    match decoded_message(Seq::empty(), wrapper_descriptor(kind), s) {
        Ok(values) => if values.len() == 1 && crate::encode::message::scalar_matches(
            kind,
            values[0],
        ) {
            Ok(values[0])
        } else {
            Err(DecodeError::InvalidData)
        },
        Err(e) => Err(e),
    }
}

/// The seconds and the nanoseconds that the message of a duration or of a
/// timestamp stands for: what its fields 1 and 2 hold after the bytes were
/// read, zero where no record set them.
pub open spec fn decoded_temporal(s: Seq<u8>) -> Result<(i64, i32), DecodeError>
    decreases s.len(), 2nat,
{
    match decoded_message(Seq::empty(), temporal_descriptor(), s) {
        Ok(values) => if values.len() == 2 {
            match (values[0], values[1]) {
                (ValueView::Int64(seconds), ValueView::Int32(nanos)) => Ok((seconds, nanos)),
                _ => Err(DecodeError::InvalidData),
            }
        } else {
            Err(DecodeError::InvalidData)
        },
        Err(e) => Err(e),
    }
}

/// The value of the given kind that a payload stands for. A scalar or an
/// enumeration value is read from the payload itself; every other kind is a
/// message in a delimited payload, and fails with `InvalidData` on any other.
/// A duration has its sign normalized and a timestamp its year checked.
pub open spec fn decoded_element(
    schema: Seq<Seq<FieldView>>,
    kind: ElementKind,
    payload: Payload,
) -> Result<ValueView, DecodeError>
    decreases payload_len(payload), 3nat,
{
    match (kind, payload) {
        (ElementKind::Scalar(_), _) => decoded_plain(kind, payload),
        (ElementKind::Enum, _) => decoded_plain(kind, payload),
        (ElementKind::Wrapped(k), Payload::Delimited(b)) => decoded_wrapped(k, b),
        (ElementKind::Duration, Payload::Delimited(b)) => match decoded_temporal(b) {
            Ok((seconds, nanos)) => duration_value(Duration { seconds, nanos }),
            Err(e) => Err(e),
        },
        (ElementKind::Timestamp, Payload::Delimited(b)) => match decoded_temporal(b) {
            Ok((seconds, nanos)) => timestamp_value(Timestamp { seconds, nanos }),
            Err(e) => Err(e),
        },
        (_, Payload::Delimited(b)) => match nested_descriptor(schema, kind) {
            Some(desc) => match decoded_message(schema, desc, b) {
                Ok(values) => Ok(ValueView::Message(values)),
                Err(e) => Err(e),
            },
            None => Err(DecodeError::InvalidData),
        },
        _ => Err(DecodeError::InvalidData),
    }
}

/// The items that one record adds to a repeated field: the values of a packed
/// list where the kind can be packed and the payload is delimited, else the
/// one value that the payload stands for.
pub open spec fn decoded_items(
    schema: Seq<Seq<FieldView>>,
    kind: ElementKind,
    payload: Payload,
) -> Result<Seq<ValueView>, DecodeError>
    decreases payload_len(payload), 4nat,
{
    match (packed_wire_type(kind), payload) {
        (Some(wire_type), Payload::Delimited(b)) => decoded_packed(kind, wire_type, b),
        _ => match decoded_element(schema, kind, payload) {
            Ok(value) => Ok(seq![value]),
            Err(e) => Err(e),
        },
    }
}

/// The values of an instance after one more record was read. A record whose
/// number the descriptor does not know changes nothing; one of a
/// single-valued field replaces the field's value; one of a repeated field
/// adds to the field's list.
pub open spec fn applied_record(
    schema: Seq<Seq<FieldView>>,
    desc: Seq<FieldView>,
    state: Seq<ValueView>,
    record: Record,
) -> Result<Seq<ValueView>, DecodeError>
    decreases payload_len(record.payload), 5nat,
{
    match find_field(desc, record.number) {
        None => Ok(state),
        Some(i) => if 0 <= i < desc.len() && i < state.len() {
            match desc[i].kind {
                FieldKind::Single(kind) => match decoded_element(schema, kind, record.payload) {
                    Ok(value) => Ok(store(desc, state, i, value)),
                    Err(e) => Err(e),
                },
                FieldKind::Repeated(kind) => match decoded_items(schema, kind, record.payload) {
                    Ok(items) => Ok(
                        state.update(i, ValueView::List(list_items(state[i]) + items)),
                    ),
                    Err(e) => Err(e),
                },
            }
        } else {
            Ok(state)
        },
    }
}

/// The values of an instance after all records of `s` were read, one after
/// the other, starting from `state`. `InvalidData` where the bytes are not a
/// sequence of well-formed records; the failure of the first record that
/// cannot be read into its field otherwise.
pub open spec fn decoded_fields(
    schema: Seq<Seq<FieldView>>,
    desc: Seq<FieldView>,
    s: Seq<u8>,
    state: Seq<ValueView>,
) -> Result<Seq<ValueView>, DecodeError>
    decreases s.len(), 0nat,
{
    if s.len() == 0 {
        Ok(state)
    } else {
        match parse_record(s) {
            Some((record, n)) => if 0 < n <= s.len() && payload_len(record.payload) < s.len() {
                match applied_record(schema, desc, state, record) {
                    Ok(next) => decoded_fields(schema, desc, s.skip(n as int), next),
                    Err(e) => Err(e),
                }
            } else {
                Err(DecodeError::InvalidData)
            },
            None => Err(DecodeError::InvalidData),
        }
    }
}

/// The values of the instance that the wire bytes `s` stand for: those of a
/// fresh instance, changed by each record in turn.
pub open spec fn decoded_message(
    schema: Seq<Seq<FieldView>>,
    desc: Seq<FieldView>,
    s: Seq<u8>,
) -> Result<Seq<ValueView>, DecodeError>
    decreases s.len(), 1nat,
{
    decoded_fields(schema, desc, s, default_values(desc))
}

/// Trusted: `core::str::from_utf8`. It succeeds exactly on valid UTF-8, and
/// the string it returns is made of the bytes it was given.
#[verifier::external_body]
fn str_from_utf8<'a>(bytes: &'a [u8]) -> (r: Option<&'a str>)
    ensures
        match r {
            Some(s) => valid_utf8(bytes@) && s.spec_bytes() == bytes@,
            None => !valid_utf8(bytes@),
        },
{
    core::str::from_utf8(bytes).ok()
}

/// Reads a scalar of the given kind from a payload.
pub fn decode_scalar(kind: ScalarKind, payload: &WirePayload) -> (r: Result<Value, DecodeError>)
    ensures
        match r {
            Ok(value) => decoded_scalar(kind, payload@) == Ok::<ValueView, DecodeError>(value@),
            Err(e) => decoded_scalar(kind, payload@) == Err::<ValueView, DecodeError>(e),
        },
{
    match (kind, payload) {
        (ScalarKind::Bool, WirePayload::Varint(v)) => Ok(Value::Bool(*v != 0)),
        (ScalarKind::Int32, WirePayload::Varint(v)) => Ok(
            Value::Int32(#[verifier::truncate] (*v as i32)),
        ),
        (ScalarKind::Int64, WirePayload::Varint(v)) => Ok(
            Value::Int64(#[verifier::truncate] (*v as i64)),
        ),
        (ScalarKind::UInt32, WirePayload::Varint(v)) => Ok(
            Value::UInt32(#[verifier::truncate] (*v as u32)),
        ),
        (ScalarKind::UInt64, WirePayload::Varint(v)) => Ok(Value::UInt64(*v)),
        (ScalarKind::Float, WirePayload::Fixed32(v)) => Ok(Value::Float(*v)),
        (ScalarKind::Double, WirePayload::Fixed64(v)) => Ok(Value::Double(*v)),
        (ScalarKind::String, WirePayload::Delimited(b)) => match str_from_utf8(b) {
            Some(s) => {
                proof {
                    encode_utf8_decode_utf8(s@);
                }
                Ok(Value::Str(s.to_owned()))
            },
            None => Err(DecodeError::InvalidData),
        },
        (ScalarKind::Bytes, WirePayload::Delimited(b)) => Ok(Value::Bytes(slice_to_vec(b))),
        _ => Err(DecodeError::InvalidData),
    }
}

/// Reads a scalar or an enumeration value from a payload.
pub fn decode_plain(kind: ElementKind, payload: &WirePayload) -> (r: Result<Value, DecodeError>)
    ensures
        match r {
            Ok(value) => decoded_plain(kind, payload@) == Ok::<ValueView, DecodeError>(value@),
            Err(e) => decoded_plain(kind, payload@) == Err::<ValueView, DecodeError>(e),
        },
{
    match kind {
        ElementKind::Scalar(k) => decode_scalar(k, payload),
        ElementKind::Enum => match payload {
            WirePayload::Varint(v) => Ok(Value::Enum(#[verifier::truncate] (*v as i32))),
            _ => Err(DecodeError::InvalidData),
        },
        _ => Err(DecodeError::InvalidData),
    }
}

/// The wire type of a packed list of the given kind, where the kind can be
/// packed.
pub fn packed_wire_type_of(kind: ElementKind) -> (r: Option<WireType>)
    ensures
        r == packed_wire_type(kind),
{
    match kind {
        ElementKind::Scalar(ScalarKind::Float) => Some(WireType::ThirtyTwoBit),
        ElementKind::Scalar(ScalarKind::Double) => Some(WireType::SixtyFourBit),
        ElementKind::Scalar(ScalarKind::String) => None,
        ElementKind::Scalar(ScalarKind::Bytes) => None,
        ElementKind::Scalar(_) => Some(WireType::Varint),
        ElementKind::Enum => Some(WireType::Varint),
        _ => None,
    }
}

/// What was read so far, put before what the rest gives.
pub open spec fn prepend(done: Seq<ValueView>, rest: Result<Seq<ValueView>, DecodeError>) -> Result<
    Seq<ValueView>,
    DecodeError,
> {
    match rest {
        Ok(values) => Ok(done + values),
        Err(e) => Err(e),
    }
}

/// The views of a sequence of values with one more value behind it.
pub proof fn lemma_values_view_push(values: Seq<Value>, value: Value)
    ensures
        values_view(values.push(value)) == values_view(values).push(value@),
{
    assert(values_view(values.push(value)) =~= values_view(values).push(value@));
}

/// Reads a packed list.
pub fn decode_packed(kind: ElementKind, wire_type: WireType, buf: &[u8]) -> (r: Result<
    Vec<Value>,
    DecodeError,
>)
    ensures
        match r {
            Ok(items) => decoded_packed(kind, wire_type, buf@) == Ok::<
                Seq<ValueView>,
                DecodeError,
            >(values_view(items@)),
            Err(e) => decoded_packed(kind, wire_type, buf@) == Err::<Seq<ValueView>, DecodeError>(
                e,
            ),
        },
{
    let mut items: Vec<Value> = Vec::new();
    let mut pos: usize = 0;
    assert(buf@.skip(0) =~= buf@);
    assert(values_view(items@) + values_view(items@) =~= values_view(items@));
    assert(values_view(items@) =~= Seq::<ValueView>::empty());
    assert(decoded_packed(kind, wire_type, buf@) == prepend(
        values_view(items@),
        decoded_packed(kind, wire_type, buf@.skip(0)),
    )) by {
        let r = decoded_packed(kind, wire_type, buf@);
        if r is Ok {
            assert(values_view(items@) + r->Ok_0 =~= r->Ok_0);
        }
    }
    while pos < buf.len()
        invariant
            pos <= buf@.len(),
            decoded_packed(kind, wire_type, buf@) == prepend(
                values_view(items@),
                decoded_packed(kind, wire_type, buf@.skip(pos as int)),
            ),
        decreases buf@.len() - pos,
    {
        let rest = slice_subrange(buf, pos, buf.len());
        assert(rest@ =~= buf@.skip(pos as int));
        match read_payload(wire_type, rest) {
            Ok((payload, n)) => {
                proof {
                    crate::wire::lemma_parse_payload_bounds(wire_type, rest@);
                }
                match decode_plain(kind, &payload) {
                    Ok(value) => {
                        proof {
                            let tail = decoded_packed(kind, wire_type, rest@.skip(n as int));
                            assert(rest@.skip(n as int) =~= buf@.skip(pos + n));
                            lemma_values_view_push(items@, value);
                            if tail is Ok {
                                assert(values_view(items@) + (seq![value@] + tail->Ok_0)
                                    =~= values_view(items@).push(value@) + tail->Ok_0);
                            }
                        }
                        items.push(value);
                        pos = pos + n;
                    },
                    Err(e) => {
                        return Err(e);
                    },
                }
            },
            Err(e) => {
                return Err(e);
            },
        }
    }
    proof {
        assert(buf@.skip(pos as int).len() == 0);
        assert(values_view(items@) + Seq::<ValueView>::empty() =~= values_view(items@));
    }
    Ok(items)
}

/// The value of a field on a fresh instance.
pub fn default_value_of(field: &FieldDescriptor) -> (r: Value)
    ensures
        r@ == default_value(field@),
{
    match field.kind {
        FieldKind::Single(ElementKind::Scalar(k)) => {
            if field.oneof_group.is_some() {
                Value::Null
            } else {
                zero_value_of(k)
            }
        },
        FieldKind::Single(ElementKind::Enum) => {
            if field.oneof_group.is_some() {
                Value::Null
            } else {
                Value::Enum(0)
            }
        },
        FieldKind::Single(_) => Value::Null,
        FieldKind::Repeated(_) => {
            let items: Vec<Value> = Vec::new();
            proof {
                lemma_list_view(items);
                assert(values_view(items@) =~= Seq::<ValueView>::empty());
            }
            Value::List(items)
        },
    }
}

/// The zero of a scalar kind.
pub fn zero_value_of(kind: ScalarKind) -> (r: Value)
    ensures
        r@ == zero_value(kind),
{
    match kind {
        ScalarKind::Bool => Value::Bool(false),
        ScalarKind::Int32 => Value::Int32(0),
        ScalarKind::Int64 => Value::Int64(0),
        ScalarKind::UInt32 => Value::UInt32(0),
        ScalarKind::UInt64 => Value::UInt64(0),
        ScalarKind::Float => Value::Float(0),
        ScalarKind::Double => Value::Double(0),
        ScalarKind::String => Value::Str(String::new()),
        ScalarKind::Bytes => Value::Bytes(Vec::new()),
    }
}

/// The values of a fresh instance of the class that `desc` describes.
pub fn default_values_of(desc: &MessageDescriptor) -> (r: Vec<Value>)
    ensures
        values_view(r@) == default_values(desc@),
        r@.len() == desc.fields@.len(),
{
    let mut values: Vec<Value> = Vec::new();
    let mut i: usize = 0;
    while i < desc.fields.len()
        invariant
            i <= desc.fields@.len(),
            values@.len() == i,
            forall|j: int| 0 <= j < i ==> (#[trigger] values@[j])@ == default_value(desc@[j]),
        decreases desc.fields@.len() - i,
    {
        let value = default_value_of(&desc.fields[i].1);
        values.push(value);
        i += 1;
    }
    assert(values_view(values@) =~= default_values(desc@));
    values
}

/// Gives field `i` a value; where the field belongs to a oneof group, every
/// other member of that group is left holding nothing.
pub fn store_value(desc: &MessageDescriptor, state: &mut Vec<Value>, i: usize, value: Value)
    requires
        i < old(state)@.len(),
        old(state)@.len() == desc.fields@.len(),
    ensures
        values_view(final(state)@) == store(desc@, values_view(old(state)@), i as int, value@),
        final(state)@.len() == old(state)@.len(),
{
    let n = desc.fields.len();
    let ghost before = values_view(state@);
    let mut j: usize = 0;
    while j < n
        invariant
            j <= n,
            i < n,
            n == desc.fields@.len(),
            n == state@.len(),
            before.len() == n,
            forall|k: int|
                0 <= k < n ==> (#[trigger] state@[k])@ == if k < j && k != i
                    && desc@[i as int].oneof_group is Some && desc@[k].oneof_group
                    == desc@[i as int].oneof_group {
                    ValueView::Null
                } else {
                    before[k]
                },
        decreases n - j,
    {
        if j != i && crate::encode::message::same_group(&desc.fields[i].1, &desc.fields[j].1) {
            state[j] = Value::Null;
        }
        j += 1;
    }
    state[i] = value;
    assert(values_view(state@) =~= store(desc@, before, i as int, value@));
}

/// The descriptor of a nullable scalar's message.
pub fn wrapper_descriptor_of(kind: ScalarKind) -> (r: MessageDescriptor)
    ensures
        r@ == wrapper_descriptor(kind),
        r.well_formed(),
{
    let mut fields: Vec<(u32, FieldDescriptor)> = Vec::new();
    fields.push(
        (
            1,
            FieldDescriptor {
                number: 1,
                name: String::from_str("value"),
                kind: FieldKind::Single(ElementKind::Scalar(kind)),
                oneof_group: None,
            },
        ),
    );
    let r = MessageDescriptor { fields };
    assert(r@ =~= wrapper_descriptor(kind));
    r
}

/// The descriptor of a duration's or a timestamp's message.
pub fn temporal_descriptor_of() -> (r: MessageDescriptor)
    ensures
        r@ == temporal_descriptor(),
        r.well_formed(),
{
    let mut fields: Vec<(u32, FieldDescriptor)> = Vec::new();
    fields.push(
        (
            1,
            FieldDescriptor {
                number: 1,
                name: String::from_str("seconds"),
                kind: FieldKind::Single(ElementKind::Scalar(ScalarKind::Int64)),
                oneof_group: None,
            },
        ),
    );
    fields.push(
        (
            2,
            FieldDescriptor {
                number: 2,
                name: String::from_str("nanos"),
                kind: FieldKind::Single(ElementKind::Scalar(ScalarKind::Int32)),
                oneof_group: None,
            },
        ),
    );
    let r = MessageDescriptor { fields };
    assert(r@ =~= temporal_descriptor());
    r
}

/// A schema without classes.
pub fn empty_schema() -> (r: Schema)
    ensures
        r@ == Seq::<Seq<FieldView>>::empty(),
        r.well_formed(),
{
    let r = Schema { messages: Vec::new() };
    assert(r@ =~= Seq::<Seq<FieldView>>::empty());
    r
}

/// Reads the seconds and the nanoseconds of a duration's or a timestamp's
/// message.
pub fn decode_temporal(buf: &[u8]) -> (r: Result<(i64, i32), DecodeError>)
    ensures
        r == decoded_temporal(buf@),
    decreases buf@.len(), 2nat,
{
    let schema = empty_schema();
    let desc = temporal_descriptor_of();
    match decode_message(&schema, &desc, buf) {
        Ok(message) => {
            let values = message.values;
            assert(values@.len() == 2);
            match (&values[0], &values[1]) {
                (Value::Int64(seconds), Value::Int32(nanos)) => Ok((*seconds, *nanos)),
                _ => Err(DecodeError::InvalidData),
            }
        },
        Err(e) => Err(e),
    }
}

/// Reads the scalar of a nullable scalar's message.
pub fn decode_wrapped(kind: ScalarKind, buf: &[u8]) -> (r: Result<Value, DecodeError>)
    ensures
        match r {
            Ok(value) => decoded_wrapped(kind, buf@) == Ok::<ValueView, DecodeError>(value@)
                && crate::encode::message::scalar_matches(kind, value@),
            Err(e) => decoded_wrapped(kind, buf@) == Err::<ValueView, DecodeError>(e),
        },
    decreases buf@.len(), 2nat,
{
    let schema = empty_schema();
    let desc = wrapper_descriptor_of(kind);
    match decode_message(&schema, &desc, buf) {
        Ok(message) => {
            let mut values = message.values;
            assert(values@.len() == 1);
            let value = values.remove(0);
            if crate::encode::message::matches_scalar(kind, &value) {
                Ok(value)
            } else {
                Err(DecodeError::InvalidData)
            }
        },
        Err(e) => Err(e),
    }
}

/// Reads one value of the given kind from a payload.
pub fn decode_element(schema: &Schema, kind: ElementKind, payload: &WirePayload) -> (r: Result<
    Value,
    DecodeError,
>)
    ensures
        match r {
            Ok(value) => decoded_element(schema@, kind, payload@) == Ok::<ValueView, DecodeError>(
                value@,
            ),
            Err(e) => decoded_element(schema@, kind, payload@) == Err::<ValueView, DecodeError>(e),
        },
    decreases payload_len(payload@), 3nat,
{
    match (kind, payload) {
        (ElementKind::Scalar(_), _) => decode_plain(kind, payload),
        (ElementKind::Enum, _) => decode_plain(kind, payload),
        (ElementKind::Wrapped(k), WirePayload::Delimited(b)) => decode_wrapped(k, b),
        (ElementKind::Duration, WirePayload::Delimited(b)) => match decode_temporal(b) {
            Ok((seconds, nanos)) => (Duration { seconds, nanos }).try_to_object(),
            Err(e) => Err(e),
        },
        (ElementKind::Timestamp, WirePayload::Delimited(b)) => match decode_temporal(b) {
            Ok((seconds, nanos)) => (Timestamp { seconds, nanos }).try_to_object(),
            Err(e) => Err(e),
        },
        (ElementKind::Message(id), WirePayload::Delimited(b)) => {
            if id < schema.messages.len() {
                match decode_message(schema, &schema.messages[id], b) {
                    Ok(message) => {
                        proof {
                            lemma_message_view(message);
                        }
                        Ok(Value::Message(message))
                    },
                    Err(e) => Err(e),
                }
            } else {
                Err(DecodeError::InvalidData)
            }
        },
        (ElementKind::MapEntry(key, value), WirePayload::Delimited(b)) => {
            let desc = entry_descriptor_of(key, value);
            match decode_message(schema, &desc, b) {
                Ok(message) => {
                    proof {
                        lemma_message_view(message);
                    }
                    Ok(Value::Message(message))
                },
                Err(e) => Err(e),
            }
        },
        _ => Err(DecodeError::InvalidData),
    }
}

/// Reads the items that one record adds to a repeated field.
pub fn decode_repeated(schema: &Schema, kind: ElementKind, payload: &WirePayload) -> (r: Result<
    Vec<Value>,
    DecodeError,
>)
    ensures
        match r {
            Ok(items) => decoded_items(schema@, kind, payload@) == Ok::<
                Seq<ValueView>,
                DecodeError,
            >(values_view(items@)),
            Err(e) => decoded_items(schema@, kind, payload@) == Err::<Seq<ValueView>, DecodeError>(
                e,
            ),
        },
    decreases payload_len(payload@), 4nat,
{
    match (packed_wire_type_of(kind), payload) {
        (Some(wire_type), WirePayload::Delimited(b)) => decode_packed(kind, wire_type, b),
        _ => match decode_element(schema, kind, payload) {
            Ok(value) => {
                let mut items: Vec<Value> = Vec::new();
                items.push(value);
                assert(values_view(items@) =~= seq![value@]);
                Ok(items)
            },
            Err(e) => Err(e),
        },
    }
}

/// Reads one record into the values of an instance.
pub fn apply_record(
    schema: &Schema,
    desc: &MessageDescriptor,
    state: &mut Vec<Value>,
    record: &WireRecord,
) -> (r: Result<(), DecodeError>)
    requires
        old(state)@.len() == desc.fields@.len(),
    ensures
        final(state)@.len() == old(state)@.len(),
        match r {
            Ok(()) => applied_record(schema@, desc@, values_view(old(state)@), record@) == Ok::<
                Seq<ValueView>,
                DecodeError,
            >(values_view(final(state)@)),
            Err(e) => applied_record(schema@, desc@, values_view(old(state)@), record@) == Err::<
                Seq<ValueView>,
                DecodeError,
            >(e),
        },
    decreases payload_len(record@.payload), 5nat,
{
    match desc.find(record.number) {
        None => Ok(()),
        Some(i) => match desc.fields[i].1.kind {
            FieldKind::Single(kind) => match decode_element(schema, kind, &record.payload) {
                Ok(value) => {
                    store_value(desc, state, i, value);
                    Ok(())
                },
                Err(e) => Err(e),
            },
            FieldKind::Repeated(kind) => match decode_repeated(schema, kind, &record.payload) {
                Ok(more) => {
                    let ghost before = values_view(state@);
                    let mut more = more;
                    let ghost added = values_view(more@);
                    let mut taken = Value::Null;
                    core::mem::swap(&mut taken, &mut state[i]);
                    let mut items: Vec<Value> = match taken {
                        Value::List(items) => {
                            proof {
                                lemma_list_view(items);
                            }
                            items
                        },
                        _ => Vec::new(),
                    };
                    assert(values_view(items@) =~= list_items(before[i as int]));
                    let ghost kept = items@;
                    let ghost fresh = more@;
                    items.append(&mut more);
                    proof {
                        assert(items@ =~= kept + fresh);
                        assert(values_view(items@) =~= list_items(before[i as int]) + added);
                        lemma_list_view(items);
                    }
                    state[i] = Value::List(items);
                    assert(values_view(state@) =~= before.update(
                        i as int,
                        ValueView::List(list_items(before[i as int]) + added),
                    ));
                    Ok(())
                },
                Err(e) => Err(e),
            },
        },
    }
}

/// Decodes wire bytes into an instance of the class that `desc` describes;
/// `schema` holds the classes of the messages nested in it.
///
/// A fresh instance is changed by each record in turn: a record of an unknown
/// field is passed over, whatever its wire type, a group with all that stands
/// in it; a record of a single-valued field replaces the field's value and
/// leaves the other members of its oneof group holding nothing; a record of a
/// repeated field adds to the field's list. A group under the number of a
/// known field is `InvalidData`, as no kind of field is written as a group.
/// Fails with what `decoded_message` gives for these bytes.
pub fn decode_message(schema: &Schema, desc: &MessageDescriptor, buf: &[u8]) -> (r: Result<
    BetterprotoMessage,
    DecodeError,
>)
    ensures
        match r {
            Ok(message) => decoded_message(schema@, desc@, buf@) == Ok::<
                Seq<ValueView>,
                DecodeError,
            >(message@),
            Err(e) => decoded_message(schema@, desc@, buf@) == Err::<Seq<ValueView>, DecodeError>(
                e,
            ),
        },
        r matches Ok(message) ==> message.values@.len() == desc.fields@.len(),
    decreases buf@.len(), 1nat,
{
    let mut state = default_values_of(desc);
    let mut pos: usize = 0;
    assert(buf@.skip(0) =~= buf@);
    while pos < buf.len()
        invariant
            pos <= buf@.len(),
            state@.len() == desc.fields@.len(),
            decoded_message(schema@, desc@, buf@) == decoded_fields(
                schema@,
                desc@,
                buf@.skip(pos as int),
                values_view(state@),
            ),
        decreases buf@.len() - pos,
    {
        let rest = slice_subrange(buf, pos, buf.len());
        assert(rest@ =~= buf@.skip(pos as int));
        match read_record(rest) {
            Ok((record, n)) => {
                proof {
                    lemma_parse_record_bounds(rest@);
                    assert(rest@.skip(n as int) =~= buf@.skip(pos + n));
                }
                match apply_record(schema, desc, &mut state, &record) {
                    Ok(()) => {
                        pos = pos + n;
                    },
                    Err(e) => {
                        return Err(e);
                    },
                }
            },
            Err(e) => {
                return Err(e);
            },
        }
    }
    Ok(BetterprotoMessage { values: state })
}

} // verus!
