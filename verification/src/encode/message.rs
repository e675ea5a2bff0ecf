//! The message encoder: what the bytes of an instance are, and the function
//! that writes them.

use crate::betterproto_interop::message::{
    lemma_list_view, lemma_message_view, values_view, BetterprotoMessage, Value, ValueView,
};
use crate::descriptors::{
    nullable, ElementKind, FieldDescriptor, FieldKind, FieldView, MapValueKind, MessageDescriptor,
    ScalarKind, Schema,
};
use crate::encode::error::EncodeError;
use crate::wire::{
    fitting, lemma_records_bytes_concat, lemma_records_bytes_one, lemma_records_bytes_push,
    lemma_wire_payload_fits, record_bytes, records_bytes, write_record, Payload, Record,
    WirePayload, WireRecord, MAX_FIELD_NUMBER, MIN_FIELD_NUMBER,
};
use crate::well_known_types::{duration_is_canonical, timestamp_is_canonical};
use vstd::prelude::*;
use vstd::string::StringExecFns;
use vstd::utf8::encode_utf8;

verus! {

/// The value that a scalar field has where nothing was written for it.
pub open spec fn zero_value(kind: ScalarKind) -> ValueView {
    match kind {
        ScalarKind::Bool => ValueView::Bool(false),
        ScalarKind::Int32 => ValueView::Int32(0),
        ScalarKind::Int64 => ValueView::Int64(0),
        ScalarKind::UInt32 => ValueView::UInt32(0),
        ScalarKind::UInt64 => ValueView::UInt64(0),
        ScalarKind::Float => ValueView::Float(0),
        ScalarKind::Double => ValueView::Double(0),
        ScalarKind::String => ValueView::Str(Seq::empty()),
        ScalarKind::Bytes => ValueView::Bytes(Seq::empty()),
    }
}

/// Whether a value is the zero of a scalar kind or of an enumeration: false,
/// the number 0, the floating-point bit pattern 0, the empty string or no
/// bytes.
pub open spec fn is_zero(value: ValueView) -> bool {
    match value {
        ValueView::Bool(b) => !b,
        ValueView::Int32(v) => v == 0,
        ValueView::Int64(v) => v == 0,
        ValueView::UInt32(v) => v == 0,
        ValueView::UInt64(v) => v == 0,
        ValueView::Float(v) => v == 0,
        ValueView::Double(v) => v == 0,
        ValueView::Str(s) => s.len() == 0,
        ValueView::Bytes(b) => b.len() == 0,
        ValueView::Enum(v) => v == 0,
        _ => false,
    }
}

/// Whether a value is of a scalar kind.
pub open spec fn scalar_matches(kind: ScalarKind, value: ValueView) -> bool {
    match kind {
        ScalarKind::Bool => value is Bool,
        ScalarKind::Int32 => value is Int32,
        ScalarKind::Int64 => value is Int64,
        ScalarKind::UInt32 => value is UInt32,
        ScalarKind::UInt64 => value is UInt64,
        ScalarKind::Float => value is Float,
        ScalarKind::Double => value is Double,
        ScalarKind::String => value is Str,
        ScalarKind::Bytes => value is Bytes,
    }
}

/// The payload under which a scalar or an enumeration value is written.
/// Signed integers are widened to 64 bits and written as the unsigned number
/// with the same bits; a string is written as its UTF-8 bytes.
pub open spec fn scalar_payload(value: ValueView) -> Payload {
    match value {
        ValueView::Bool(b) => Payload::Varint(
            if b {
                1
            } else {
                0
            },
        ),
        ValueView::Int32(v) => Payload::Varint(v as i64 as u64),
        ValueView::Int64(v) => Payload::Varint(v as u64),
        ValueView::UInt32(v) => Payload::Varint(v as u64),
        ValueView::UInt64(v) => Payload::Varint(v),
        ValueView::Float(v) => Payload::Fixed32(v),
        ValueView::Double(v) => Payload::Fixed64(v),
        ValueView::Str(s) => Payload::Delimited(encode_utf8(s)),
        ValueView::Bytes(b) => Payload::Delimited(b),
        ValueView::Enum(v) => Payload::Varint(v as i64 as u64),
        _ => Payload::Varint(0),
    }
}

/// The record of a scalar that stands alone in a message under `number`: none
/// where the value is zero.
pub open spec fn plain_scalar_records(number: u32, value: ValueView) -> Seq<Record> {
    if is_zero(value) {
        Seq::empty()
    } else {
        seq![Record { number, payload: scalar_payload(value) }]
    }
}

/// The bytes of a nullable scalar that is present: a message whose field 1
/// is the scalar.
pub open spec fn wrapped_bytes(value: ValueView) -> Seq<u8> {
    records_bytes(plain_scalar_records(1, value))
}

/// The bytes of a duration or a timestamp: a message whose field 1 is the
/// seconds and whose field 2 is the nanoseconds.
pub open spec fn temporal_bytes(seconds: i64, nanos: i32) -> Seq<u8> {
    records_bytes(
        plain_scalar_records(1, ValueView::Int64(seconds)) + plain_scalar_records(
            2,
            ValueView::Int32(nanos),
        ),
    )
}

/// The descriptor of a map's entries: the key under number 1 and the value
/// under number 2.
pub open spec fn entry_descriptor(key: ScalarKind, value: MapValueKind) -> Seq<FieldView> {
    seq![
        FieldView {
            number: 1,
            name: "key"@,
            kind: FieldKind::Single(ElementKind::Scalar(key)),
            oneof_group: None,
        },
        FieldView {
            number: 2,
            name: "value"@,
            kind: FieldKind::Single(value.element()),
            oneof_group: None,
        },
    ]
}

/// The descriptor of the instances that a kind holds, where it holds
/// instances and the schema knows their class.
pub open spec fn nested_descriptor(schema: Seq<Seq<FieldView>>, kind: ElementKind) -> Option<
    Seq<FieldView>,
> {
    match kind {
        ElementKind::Message(id) => if id < schema.len() {
            Some(schema[id as int])
        } else {
            None
        },
        ElementKind::MapEntry(key, value) => Some(entry_descriptor(key, value)),
        _ => None,
    }
}

/// Whether at most one member of each oneof group holds a value.
pub open spec fn oneof_exclusive(desc: Seq<FieldView>, values: Seq<ValueView>) -> bool {
    forall|i: int, j: int|
        0 <= i < j < desc.len() && j < values.len() && (#[trigger] desc[i]).oneof_group is Some
            && desc[i].oneof_group == (#[trigger] desc[j]).oneof_group ==> values[i] is Null
            || values[j] is Null
}

/// The payload of one value of the given kind, or `None` where the value is
/// not of that kind. A duration or a timestamp is of its kind only where it
/// is one that the host holds as it stands, and no value has more bytes than
/// a length of 64 bits can count.
pub open spec fn element_payload(
    schema: Seq<Seq<FieldView>>,
    kind: ElementKind,
    value: ValueView,
) -> Option<Payload>
    decreases value, 0nat,
{
    match kind {
        ElementKind::Scalar(k) => if scalar_matches(k, value) {
            fitting(scalar_payload(value))
        } else {
            None
        },
        ElementKind::Enum => if value is Enum {
            fitting(scalar_payload(value))
        } else {
            None
        },
        ElementKind::Wrapped(k) => if scalar_matches(k, value) {
            fitting(Payload::Delimited(wrapped_bytes(value)))
        } else {
            None
        },
        ElementKind::Duration => match value {
            ValueView::Duration(d) => if duration_is_canonical(d) {
                fitting(Payload::Delimited(temporal_bytes(d.seconds, d.nanos)))
            } else {
                None
            },
            _ => None,
        },
        ElementKind::Timestamp => match value {
            ValueView::Timestamp(t) => if timestamp_is_canonical(t) {
                fitting(Payload::Delimited(temporal_bytes(t.seconds, t.nanos)))
            } else {
                None
            },
            _ => None,
        },
        _ => match (nested_descriptor(schema, kind), value) {
            (Some(desc), ValueView::Message(values)) => match message_bytes(
                schema,
                desc,
                values,
            ) {
                Some(bytes) => fitting(Payload::Delimited(bytes)),
                None => None,
            },
            _ => None,
        },
    }
}

/// The records of a list's first `n` items, each under the field's number.
pub open spec fn items_records(
    schema: Seq<Seq<FieldView>>,
    number: u32,
    kind: ElementKind,
    items: Seq<ValueView>,
    n: nat,
) -> Option<Seq<Record>>
    decreases items, n,
{
    if n == 0 {
        Some(Seq::empty())
    } else if n > items.len() {
        None
    } else {
        match (
            items_records(schema, number, kind, items, (n - 1) as nat),
            element_payload(schema, kind, items[n - 1]),
        ) {
            (Some(head), Some(payload)) => Some(head.push(Record { number, payload })),
            _ => None,
        }
    }
}

/// Whether a single-valued field leaves out a value that is zero: it does
/// where it holds a scalar or an enumeration and belongs to no oneof group.
pub open spec fn omits_zero(field: FieldView) -> bool {
    field.oneof_group is None && (field.kind matches FieldKind::Single(ElementKind::Scalar(_))
        || field.kind == FieldKind::Single(ElementKind::Enum))
}

/// The records of one field, or `None` where the value is not of the field's
/// kind. A single-valued field gives no record where it holds no value, or
/// where it leaves out zero and the value is zero; a list gives one record
/// for each item, in order.
pub open spec fn field_records(
    schema: Seq<Seq<FieldView>>,
    field: FieldView,
    value: ValueView,
) -> Option<Seq<Record>>
    decreases value, 1nat,
{
    match field.kind {
        FieldKind::Single(kind) => if value is Null {
            if nullable(field) {
                Some(Seq::empty())
            } else {
                None
            }
        } else {
            match element_payload(schema, kind, value) {
                Some(payload) => if omits_zero(field) && is_zero(value) {
                    Some(Seq::empty())
                } else {
                    Some(seq![Record { number: field.number, payload }])
                },
                None => None,
            }
        },
        FieldKind::Repeated(kind) => match value {
            ValueView::List(items) => items_records(schema, field.number, kind, items, items.len()),
            _ => None,
        },
    }
}

/// The records of an instance's first `n` fields, in the descriptor's order.
pub open spec fn fields_records(
    schema: Seq<Seq<FieldView>>,
    desc: Seq<FieldView>,
    values: Seq<ValueView>,
    n: nat,
) -> Option<Seq<Record>>
    decreases values, n,
{
    if n == 0 {
        Some(Seq::empty())
    } else if n > values.len() || n > desc.len() {
        None
    } else {
        match (
            fields_records(schema, desc, values, (n - 1) as nat),
            field_records(schema, desc[n - 1], values[n - 1]),
        ) {
            (Some(head), Some(records)) => Some(head + records),
            _ => None,
        }
    }
}

/// The records of an instance, or `None` where it is not an instance of the
/// descriptor's class: where it has another number of values than the
/// descriptor has fields, two members of a oneof group hold a value, or a
/// value is not of its field's kind.
pub open spec fn message_records(
    schema: Seq<Seq<FieldView>>,
    desc: Seq<FieldView>,
    values: Seq<ValueView>,
) -> Option<Seq<Record>>
    decreases values, values.len() + 1,
{
    if values.len() == desc.len() && oneof_exclusive(desc, values) {
        fields_records(schema, desc, values, values.len())
    } else {
        None
    }
}

/// The wire bytes of an instance: its records, one after the other.
pub open spec fn message_bytes(
    schema: Seq<Seq<FieldView>>,
    desc: Seq<FieldView>,
    values: Seq<ValueView>,
) -> Option<Seq<u8>>
    decreases values, values.len() + 2,
{
    match message_records(schema, desc, values) {
        Some(records) => Some(records_bytes(records)),
        None => None,
    }
}

/// Once a prefix of a list cannot be encoded, no longer prefix can.
pub proof fn lemma_items_records_none(
    schema: Seq<Seq<FieldView>>,
    number: u32,
    kind: ElementKind,
    items: Seq<ValueView>,
    i: nat,
    n: nat,
)
    requires
        i <= n,
        items_records(schema, number, kind, items, i) is None,
    ensures
        items_records(schema, number, kind, items, n) is None,
    decreases n,
{
    if i < n {
        lemma_items_records_none(schema, number, kind, items, i, (n - 1) as nat);
    }
}

/// Once a prefix of the fields cannot be encoded, no longer prefix can.
pub proof fn lemma_fields_records_none(
    schema: Seq<Seq<FieldView>>,
    desc: Seq<FieldView>,
    values: Seq<ValueView>,
    i: nat,
    n: nat,
)
    requires
        i <= n,
        fields_records(schema, desc, values, i) is None,
    ensures
        fields_records(schema, desc, values, n) is None,
    decreases n,
{
    if i < n {
        lemma_fields_records_none(schema, desc, values, i, (n - 1) as nat);
    }
}

/// Whether a value is a scalar or an enumeration value.
pub open spec fn is_plain(value: ValueView) -> bool {
    match value {
        ValueView::Bool(_) => true,
        ValueView::Int32(_) => true,
        ValueView::Int64(_) => true,
        ValueView::UInt32(_) => true,
        ValueView::UInt64(_) => true,
        ValueView::Float(_) => true,
        ValueView::Double(_) => true,
        ValueView::Str(_) => true,
        ValueView::Bytes(_) => true,
        ValueView::Enum(_) => true,
        _ => false,
    }
}

/// Whether a value is of a scalar kind.
pub fn matches_scalar(kind: ScalarKind, value: &Value) -> (r: bool)
    ensures
        r == scalar_matches(kind, value@),
{
    match (kind, value) {
        (ScalarKind::Bool, Value::Bool(_)) => true,
        (ScalarKind::Int32, Value::Int32(_)) => true,
        (ScalarKind::Int64, Value::Int64(_)) => true,
        (ScalarKind::UInt32, Value::UInt32(_)) => true,
        (ScalarKind::UInt64, Value::UInt64(_)) => true,
        (ScalarKind::Float, Value::Float(_)) => true,
        (ScalarKind::Double, Value::Double(_)) => true,
        (ScalarKind::String, Value::Str(_)) => true,
        (ScalarKind::Bytes, Value::Bytes(_)) => true,
        _ => false,
    }
}

/// Whether a value is the zero of its kind.
pub fn is_zero_value(value: &Value) -> (r: bool)
    ensures
        r == is_zero(value@),
{
    match value {
        Value::Bool(b) => !*b,
        Value::Int32(v) => *v == 0,
        Value::Int64(v) => *v == 0,
        Value::UInt32(v) => *v == 0,
        Value::UInt64(v) => *v == 0,
        Value::Float(v) => *v == 0,
        Value::Double(v) => *v == 0,
        Value::Str(s) => s.as_str().is_empty(),
        Value::Bytes(b) => b.len() == 0,
        Value::Enum(v) => *v == 0,
        _ => false,
    }
}

/// The payload of a scalar or an enumeration value.
pub fn plain_payload<'a>(value: &'a Value) -> (r: WirePayload<'a>)
    requires
        is_plain(value@),
    ensures
        r@ == scalar_payload(value@),
{
    match value {
        Value::Bool(b) => WirePayload::Varint(
            if *b {
                1
            } else {
                0
            },
        ),
        Value::Int32(v) => {
            let wide: i64 = *v as i64;
            WirePayload::Varint(#[verifier::truncate] (wide as u64))
        },
        Value::Int64(v) => WirePayload::Varint(#[verifier::truncate] (*v as u64)),
        Value::UInt32(v) => WirePayload::Varint(*v as u64),
        Value::UInt64(v) => WirePayload::Varint(*v),
        Value::Float(v) => WirePayload::Fixed32(*v),
        Value::Double(v) => WirePayload::Fixed64(*v),
        Value::Str(s) => WirePayload::Delimited(s.as_str().as_bytes()),
        Value::Bytes(b) => WirePayload::Delimited(b.as_slice()),
        Value::Enum(v) => {
            let wide: i64 = *v as i64;
            WirePayload::Varint(#[verifier::truncate] (wide as u64))
        },
        _ => WirePayload::Varint(0),
    }
}

/// Appends the record of a scalar that stands alone in a message, unless the
/// value is zero.
pub fn write_plain_scalar(number: u32, value: &Value, buf: &mut Vec<u8>)
    requires
        MIN_FIELD_NUMBER <= number <= MAX_FIELD_NUMBER,
        is_plain(value@),
    ensures
        final(buf)@ == old(buf)@ + records_bytes(plain_scalar_records(number, value@)),
{
    if is_zero_value(value) {
        assert(buf@ =~= buf@ + records_bytes(Seq::<Record>::empty()));
    } else {
        let record = WireRecord { number, payload: plain_payload(value) };
        write_record(&record, buf);
        proof {
            lemma_records_bytes_one(record@);
        }
    }
}

/// The descriptor of a map's entries.
pub fn entry_descriptor_of(key: ScalarKind, value: MapValueKind) -> (r: MessageDescriptor)
    ensures
        r@ == entry_descriptor(key, value),
        r.well_formed(),
{
    let mut fields: Vec<(u32, FieldDescriptor)> = Vec::new();
    fields.push(
        (
            1,
            FieldDescriptor {
                number: 1,
                name: String::from_str("key"),
                kind: FieldKind::Single(ElementKind::Scalar(key)),
                oneof_group: None,
            },
        ),
    );
    fields.push(
        (
            2,
            FieldDescriptor {
                number: 2,
                name: String::from_str("value"),
                kind: FieldKind::Single(value.to_element()),
                oneof_group: None,
            },
        ),
    );
    let r = MessageDescriptor { fields };
    assert(r@ =~= entry_descriptor(key, value));
    r
}

/// Whether two fields belong to the same oneof group.
pub fn same_group(a: &FieldDescriptor, b: &FieldDescriptor) -> (r: bool)
    ensures
        r == (a@.oneof_group is Some && a@.oneof_group == b@.oneof_group),
{
    match (&a.oneof_group, &b.oneof_group) {
        (Some(x), Some(y)) => {
            let same = *x == *y;
            same
        },
        _ => false,
    }
}

/// Whether a value is absent.
pub fn is_null(value: &Value) -> (r: bool)
    ensures
        r == (value@ is Null),
{
    match value {
        Value::Null => true,
        _ => false,
    }
}

/// Whether at most one member of each oneof group of the instance holds a
/// value.
pub fn check_oneof_exclusive(desc: &MessageDescriptor, message: &BetterprotoMessage) -> (r: bool)
    requires
        desc.fields@.len() == message.values@.len(),
    ensures
        r == oneof_exclusive(desc@, message@),
{
    let n = desc.fields.len();
    let mut i: usize = 0;
    while i < n
        invariant
            i <= n,
            n == desc.fields@.len(),
            n == message.values@.len(),
            forall|a: int, b: int|
                0 <= a < b < n && a < i && (#[trigger] desc@[a]).oneof_group is Some
                    && desc@[a].oneof_group == (#[trigger] desc@[b]).oneof_group
                    ==> message@[a] is Null || message@[b] is Null,
        decreases n - i,
    {
        if desc.fields[i].1.oneof_group.is_some() && !is_null(&message.values[i]) {
            let mut j: usize = i + 1;
            while j < n
                invariant
                    i < j <= n,
                    n == desc.fields@.len(),
                    n == message.values@.len(),
                    !(message@[i as int] is Null),
                    forall|b: int|
                        i < b < j && desc@[i as int].oneof_group is Some && desc@[i as int].oneof_group
                            == (#[trigger] desc@[b]).oneof_group ==> message@[b] is Null,
                decreases n - j,
            {
                if same_group(&desc.fields[i].1, &desc.fields[j].1) && !is_null(
                    &message.values[j],
                ) {
                    assert(desc@[i as int].oneof_group is Some);
                    assert(desc@[i as int].oneof_group == desc@[j as int].oneof_group);
                    return false;
                }
                j += 1;
            }
        }
        i += 1;
    }
    true
}

/// Appends the record of one value of the given kind under `number`. Fails
/// with `DowncastFailed` exactly where the value is not of that kind.
pub fn write_element(
    schema: &Schema,
    number: u32,
    kind: ElementKind,
    value: &Value,
    buf: &mut Vec<u8>,
) -> (r: Result<(), EncodeError>)
    requires
        schema.well_formed(),
        MIN_FIELD_NUMBER <= number <= MAX_FIELD_NUMBER,
    ensures
        match r {
            Ok(()) => element_payload(schema@, kind, value@) matches Some(payload) && final(buf)@
                == old(buf)@ + record_bytes((Record { number, payload })),
            Err(e) => e == EncodeError::DowncastFailed && element_payload(schema@, kind, value@)
                is None,
        },
    decreases value, 0nat,
{
    match kind {
        ElementKind::Scalar(k) => {
            if matches_scalar(k, value) {
                let record = WireRecord { number, payload: plain_payload(value) };
                proof {                    lemma_wire_payload_fits(record.payload);                }                write_record(&record, buf);
                Ok(())
            } else {
                Err(EncodeError::DowncastFailed)
            }
        },
        ElementKind::Enum => match value {
            Value::Enum(_) => {
                let record = WireRecord { number, payload: plain_payload(value) };
                proof {                    lemma_wire_payload_fits(record.payload);                }                write_record(&record, buf);
                Ok(())
            },
            _ => Err(EncodeError::DowncastFailed),
        },
        ElementKind::Wrapped(k) => {
            if matches_scalar(k, value) {
                let mut nested: Vec<u8> = Vec::new();
                write_plain_scalar(1, value, &mut nested);
                assert(nested@ =~= wrapped_bytes(value@));
                let record = WireRecord {
                    number,
                    payload: WirePayload::Delimited(nested.as_slice()),
                };
                proof {                    lemma_wire_payload_fits(record.payload);                }                write_record(&record, buf);
                Ok(())
            } else {
                Err(EncodeError::DowncastFailed)
            }
        },
        ElementKind::Duration => match value {
            Value::Duration(d) => {
                if !d.is_canonical() {
                    return Err(EncodeError::DowncastFailed);
                }
                let nested = temporal_to_vec(d.seconds, d.nanos);
                let record = WireRecord {
                    number,
                    payload: WirePayload::Delimited(nested.as_slice()),
                };
                proof {                    lemma_wire_payload_fits(record.payload);                }                write_record(&record, buf);
                Ok(())
            },
            _ => Err(EncodeError::DowncastFailed),
        },
        ElementKind::Timestamp => match value {
            Value::Timestamp(t) => {
                if !t.is_canonical() {
                    return Err(EncodeError::DowncastFailed);
                }
                let nested = temporal_to_vec(t.seconds, t.nanos);
                let record = WireRecord {
                    number,
                    payload: WirePayload::Delimited(nested.as_slice()),
                };
                proof {                    lemma_wire_payload_fits(record.payload);                }                write_record(&record, buf);
                Ok(())
            },
            _ => Err(EncodeError::DowncastFailed),
        },
        ElementKind::Message(id) => match value {
            Value::Message(m) => {
                proof {
                    lemma_message_view(*m);
                }
                if id < schema.messages.len() {
                    match encode_message(schema, &schema.messages[id], m) {
                        Ok(nested) => {
                            let record = WireRecord {
                                number,
                                payload: WirePayload::Delimited(nested.as_slice()),
                            };
                            proof {                                lemma_wire_payload_fits(record.payload);                            }                            write_record(&record, buf);
                            Ok(())
                        },
                        Err(e) => Err(e),
                    }
                } else {
                    Err(EncodeError::DowncastFailed)
                }
            },
            _ => Err(EncodeError::DowncastFailed),
        },
        ElementKind::MapEntry(key, val) => match value {
            Value::Message(m) => {
                proof {
                    lemma_message_view(*m);
                }
                let desc = entry_descriptor_of(key, val);
                match encode_message(schema, &desc, m) {
                    Ok(nested) => {
                        let record = WireRecord {
                            number,
                            payload: WirePayload::Delimited(nested.as_slice()),
                        };
                        proof {                            lemma_wire_payload_fits(record.payload);                        }                        write_record(&record, buf);
                        Ok(())
                    },
                    Err(e) => Err(e),
                }
            },
            _ => Err(EncodeError::DowncastFailed),
        },
    }
}

/// The bytes of a duration or a timestamp.
pub fn temporal_to_vec(seconds: i64, nanos: i32) -> (r: Vec<u8>)
    ensures
        r@ == temporal_bytes(seconds, nanos),
{
    let mut nested: Vec<u8> = Vec::new();
    write_plain_scalar(1, &Value::Int64(seconds), &mut nested);
    write_plain_scalar(2, &Value::Int32(nanos), &mut nested);
    proof {
        lemma_records_bytes_concat(
            plain_scalar_records(1, ValueView::Int64(seconds)),
            plain_scalar_records(2, ValueView::Int32(nanos)),
        );
        assert(nested@ =~= temporal_bytes(seconds, nanos));
    }
    nested
}

/// Appends the records of one field. Fails with `DowncastFailed` exactly
/// where the value is not of the field's kind.
pub fn write_field(
    schema: &Schema,
    field: &FieldDescriptor,
    value: &Value,
    buf: &mut Vec<u8>,
) -> (r: Result<(), EncodeError>)
    requires
        schema.well_formed(),
        MIN_FIELD_NUMBER <= field.number <= MAX_FIELD_NUMBER,
    ensures
        match r {
            Ok(()) => field_records(schema@, field@, value@) matches Some(records) && final(buf)@
                == old(buf)@ + records_bytes(records),
            Err(e) => e == EncodeError::DowncastFailed && field_records(schema@, field@, value@)
                is None,
        },
    decreases value, 1nat,
{
    match field.kind {
        FieldKind::Single(kind) => {
            if is_null(value) {
                let can_be_absent = match kind {
                    ElementKind::Scalar(_) => field.oneof_group.is_some(),
                    ElementKind::Enum => field.oneof_group.is_some(),
                    _ => true,
                };
                if can_be_absent {
                    assert(buf@ =~= buf@ + records_bytes(Seq::<Record>::empty()));
                    Ok(())
                } else {
                    Err(EncodeError::DowncastFailed)
                }
            } else {
                let leaves_out_zero = field.oneof_group.is_none() && match kind {
                    ElementKind::Scalar(_) => true,
                    ElementKind::Enum => true,
                    _ => false,
                };
                assert(leaves_out_zero == omits_zero(field@));
                if leaves_out_zero && is_zero_value(value) {
                    let fits = match kind {
                        ElementKind::Scalar(k) => matches_scalar(k, value),
                        _ => match value {
                            Value::Enum(_) => true,
                            _ => false,
                        },
                    };
                    if fits {
                        assert(buf@ =~= buf@ + records_bytes(Seq::<Record>::empty()));
                        Ok(())
                    } else {
                        Err(EncodeError::DowncastFailed)
                    }
                } else {
                    match write_element(schema, field.number, kind, value, buf) {
                        Ok(()) => {
                            proof {
                                let payload = element_payload(schema@, kind, value@).unwrap();
                                lemma_records_bytes_one(Record { number: field.number, payload });
                            }
                            Ok(())
                        },
                        Err(e) => Err(e),
                    }
                }
            }
        },
        FieldKind::Repeated(kind) => match value {
            Value::List(items) => {
                proof {
                    lemma_list_view(*items);
                }
                let ghost views = values_view(items@);
                let ghost mut records: Seq<Record> = Seq::empty();
                let mut i: usize = 0;
                assert(buf@ =~= old(buf)@ + records_bytes(records));
                while i < items.len()
                    invariant
                        i <= items@.len(),
                        schema.well_formed(),
                        MIN_FIELD_NUMBER <= field.number <= MAX_FIELD_NUMBER,
                        views == values_view(items@),
                        *value == Value::List(*items),
                        value@ == ValueView::List(views),
                        field.kind == FieldKind::Repeated(kind),
                        items_records(schema@, field.number, kind, views, i as nat) == Some(records),
                        buf@ == old(buf)@ + records_bytes(records),
                    decreases items@.len() - i,
                {
                    proof {
                        assert(decreases_to!(*value => value->List_0@[i as int]));
                        assert(items@[i as int] == value->List_0@[i as int]);
                    }
                    let ghost before = buf@;
                    match write_element(schema, field.number, kind, &items[i], buf) {
                        Ok(()) => {
                            proof {
                                let payload = element_payload(schema@, kind, views[i as int]).unwrap();
                                let record = Record { number: field.number, payload };
                                lemma_records_bytes_push(records, record);
                                records = records.push(record);
                                assert(buf@ =~= old(buf)@ + records_bytes(records));
                            }
                        },
                        Err(e) => {
                            proof {
                                lemma_items_records_none(
                                    schema@,
                                    field.number,
                                    kind,
                                    views,
                                    (i + 1) as nat,
                                    views.len(),
                                );
                            }
                            return Err(e);
                        },
                    }
                    i += 1;
                }
                Ok(())
            },
            _ => Err(EncodeError::DowncastFailed),
        },
    }
}

/// Encodes an instance of the class that `desc` describes into wire bytes;
/// `schema` holds the classes of the messages nested in it.
///
/// The fields are written in the descriptor's order. Fails with
/// `DowncastFailed` exactly where the instance is not one of that class.
pub fn encode_message(
    schema: &Schema,
    desc: &MessageDescriptor,
    message: &BetterprotoMessage,
) -> (r: Result<Vec<u8>, EncodeError>)
    requires
        schema.well_formed(),
        desc.well_formed(),
    ensures
        match r {
            Ok(bytes) => message_bytes(schema@, desc@, message@) == Some(bytes@),
            Err(e) => e == EncodeError::DowncastFailed && message_bytes(
                schema@,
                desc@,
                message@,
            ) is None,
        },
    decreases message, 2nat,
{
    if message.values.len() != desc.fields.len() {
        return Err(EncodeError::DowncastFailed);
    }
    if !check_oneof_exclusive(desc, message) {
        return Err(EncodeError::DowncastFailed);
    }
    let mut buf: Vec<u8> = Vec::new();
    let ghost mut records: Seq<Record> = Seq::empty();
    let n = desc.fields.len();
    let mut i: usize = 0;
    assert(buf@ =~= records_bytes(records));
    while i < n
        invariant
            i <= n,
            n == desc.fields@.len(),
            n == message.values@.len(),
            schema.well_formed(),
            desc.well_formed(),
            fields_records(schema@, desc@, message@, i as nat) == Some(records),
            buf@ == records_bytes(records),
        decreases n - i,
    {
        proof {
            assert(decreases_to!(*message => message.values@[i as int]));
            assert(desc@[i as int] == desc.fields@[i as int].1@);
            assert(message@[i as int] == message.values@[i as int]@);
        }
        match write_field(schema, &desc.fields[i].1, &message.values[i], &mut buf) {
            Ok(()) => {
                proof {
                    let more = field_records(schema@, desc@[i as int], message@[i as int]).unwrap();
                    lemma_records_bytes_concat(records, more);
                    records = records + more;
                }
            },
            Err(e) => {
                proof {
                    lemma_fields_records_none(
                        schema@,
                        desc@,
                        message@,
                        (i + 1) as nat,
                        n as nat,
                    );
                }
                return Err(e);
            },
        }
        i += 1;
    }
    Ok(buf)
}

} // verus!
