//! What holds of the encoder and the decoder together: that decoding undoes
//! encoding, and how zero values, oneof groups, nullable scalars and unknown
//! fields pass over the wire.

use crate::betterproto_interop::message::ValueView;
use crate::decode::error::DecodeError;
use crate::decode::message::{
    applied_record, decoded_element, decoded_fields, decoded_items, decoded_message, decoded_plain,
    decoded_wrapped, default_value, default_values, list_items, store,
    temporal_descriptor, wrapper_descriptor,
};
use crate::descriptors::{
    descriptor_wf, find_field, lemma_find_field_from, lemma_find_field_unique, schema_wf,
    ElementKind, FieldKind, FieldView, MapValueKind, ScalarKind,
};
use crate::encode::message::{
    element_payload, entry_descriptor, field_records, fields_records, is_zero, items_records,
    message_bytes, message_records, nested_descriptor, omits_zero, oneof_exclusive,
    plain_scalar_records, scalar_matches, scalar_payload, temporal_bytes, wrapped_bytes,
    zero_value,
};
use crate::well_known_types::{lemma_duration_is_canonical, lemma_timestamp_is_canonical};
use crate::wire::{
    lemma_parse_record_bounds, lemma_parse_record_bytes, parse_record, payload_len, record_bytes,
    record_valid, records_bytes, Payload, Record, MAX_FIELD_NUMBER, MIN_FIELD_NUMBER,
};
use vstd::prelude::*;
use vstd::utf8::{encode_utf8_decode_utf8, encode_utf8_valid_utf8};

verus! {

/// The values of an instance after a sequence of records was read into it,
/// one after the other.
pub open spec fn applied_records(
    schema: Seq<Seq<FieldView>>,
    desc: Seq<FieldView>,
    state: Seq<ValueView>,
    records: Seq<Record>,
) -> Result<Seq<ValueView>, DecodeError>
    decreases records.len(),
{
    if records.len() == 0 {
        Ok(state)
    } else {
        match applied_record(schema, desc, state, records[0]) {
            Ok(next) => applied_records(schema, desc, next, records.skip(1)),
            Err(e) => Err(e),
        }
    }
}

/// Whether each record of a sequence can be written.
pub open spec fn records_valid(records: Seq<Record>) -> bool {
    forall|i: int| 0 <= i < records.len() ==> record_valid(#[trigger] records[i])
}

/// Decoding the bytes of a sequence of valid records reads each record in
/// turn.
pub proof fn lemma_decoded_fields_of_records(
    schema: Seq<Seq<FieldView>>,
    desc: Seq<FieldView>,
    state: Seq<ValueView>,
    records: Seq<Record>,
)
    requires
        records_valid(records),
    ensures
        decoded_fields(schema, desc, records_bytes(records), state) == applied_records(
            schema,
            desc,
            state,
            records,
        ),
    decreases records.len(),
{
    if records.len() > 0 {
        let first = records[0];
        let rest = records.skip(1);
        let s = records_bytes(records);
        lemma_parse_record_bytes(first, records_bytes(rest));
        lemma_parse_record_bounds(s);
        let n = record_bytes(first).len();
        assert(s.skip(n as int) =~= records_bytes(rest));
        assert(records_valid(rest)) by {
            assert forall|i: int| 0 <= i < rest.len() implies record_valid(#[trigger] rest[i]) by {
                assert(rest[i] == records[i + 1]);
            }
        }
        match applied_record(schema, desc, state, first) {
            Ok(next) => {
                lemma_decoded_fields_of_records(schema, desc, next, rest);
            },
            Err(_) => {},
        }
    }
}

/// Reading two sequences of records, one after the other, is reading the
/// first and then the second.
pub proof fn lemma_applied_records_concat(
    schema: Seq<Seq<FieldView>>,
    desc: Seq<FieldView>,
    state: Seq<ValueView>,
    a: Seq<Record>,
    b: Seq<Record>,
)
    ensures
        applied_records(schema, desc, state, a + b) == match applied_records(
            schema,
            desc,
            state,
            a,
        ) {
            Ok(mid) => applied_records(schema, desc, mid, b),
            Err(e) => Err(e),
        },
    decreases a.len(),
{
    if a.len() == 0 {
        assert(a + b =~= b);
    } else {
        assert((a + b)[0] == a[0]);
        assert((a + b).skip(1) =~= a.skip(1) + b);
        match applied_record(schema, desc, state, a[0]) {
            Ok(next) => {
                lemma_applied_records_concat(schema, desc, next, a.skip(1), b);
            },
            Err(_) => {},
        }
    }
}

/// No payload of a sequence of records is longer than the bytes of the
/// sequence.
pub proof fn lemma_payload_within(records: Seq<Record>, i: int)
    requires
        0 <= i < records.len(),
    ensures
        payload_len(records[i].payload) <= records_bytes(records).len(),
    decreases records.len(),
{
    if i > 0 {
        assert(records.skip(1)[i - 1] == records[i]);
        lemma_payload_within(records.skip(1), i - 1);
    }
}

/// A scalar or an enumeration value is read back from its payload.
pub proof fn lemma_plain_round_trip(kind: ElementKind, value: ValueView)
    requires
        match kind {
            ElementKind::Scalar(k) => scalar_matches(k, value),
            ElementKind::Enum => value is Enum,
            _ => false,
        },
    ensures
        decoded_plain(kind, scalar_payload(value)) == Ok::<ValueView, DecodeError>(value),
{
    match value {
        ValueView::Int32(x) => {
            assert((x as i64 as u64) as i32 == x) by (bit_vector);
        },
        ValueView::Int64(x) => {
            assert((x as u64) as i64 == x) by (bit_vector);
        },
        ValueView::UInt32(x) => {
            assert((x as u64) as u32 == x) by (bit_vector);
        },
        ValueView::Enum(x) => {
            assert((x as i64 as u64) as i32 == x) by (bit_vector);
        },
        ValueView::Str(s) => {
            encode_utf8_valid_utf8(s);
            encode_utf8_decode_utf8(s);
        },
        _ => {},
    }
}

/// A value that is zero and of a scalar kind is that kind's zero.
pub proof fn lemma_zero_is_zero_value(kind: ScalarKind, value: ValueView)
    requires
        scalar_matches(kind, value),
        is_zero(value),
    ensures
        value == zero_value(kind),
{
    match value {
        ValueView::Str(s) => {
            assert(s =~= Seq::<char>::empty());
        },
        ValueView::Bytes(b) => {
            assert(b =~= Seq::<u8>::empty());
        },
        _ => {},
    }
}

/// Each record of a list carries the field's number.
pub proof fn lemma_items_records_numbers(
    schema: Seq<Seq<FieldView>>,
    number: u32,
    kind: ElementKind,
    items: Seq<ValueView>,
    n: nat,
)
    requires
        items_records(schema, number, kind, items, n) is Some,
    ensures
        items_records(schema, number, kind, items, n).unwrap().len() == n,
        n <= items.len(),
        forall|j: int|
            0 <= j < n ==> {
                &&& (#[trigger] items_records(schema, number, kind, items, n).unwrap()[j]).number
                    == number
                &&& element_payload(schema, kind, items[j]) == Some(
                    items_records(schema, number, kind, items, n).unwrap()[j].payload,
                )
            },
    decreases n,
{
    if n > 0 {
        lemma_items_records_numbers(schema, number, kind, items, (n - 1) as nat);
    }
}

/// Each record of a field carries the field's number.
pub proof fn lemma_field_records_numbers(
    schema: Seq<Seq<FieldView>>,
    field: FieldView,
    value: ValueView,
)
    requires
        field_records(schema, field, value) is Some,
    ensures
        forall|j: int|
            0 <= j < field_records(schema, field, value).unwrap().len() ==> (
            #[trigger] field_records(schema, field, value).unwrap()[j]).number == field.number,
{
    match field.kind {
        FieldKind::Single(_) => {},
        FieldKind::Repeated(kind) => {
            let items = value->List_0;
            lemma_items_records_numbers(schema, field.number, kind, items, items.len());
        },
    }
}

/// Each record of an instance's first `n` fields carries the number of one
/// of those fields.
pub proof fn lemma_fields_records_numbers(
    schema: Seq<Seq<FieldView>>,
    desc: Seq<FieldView>,
    values: Seq<ValueView>,
    n: nat,
)
    requires
        fields_records(schema, desc, values, n) is Some,
    ensures
        n <= desc.len(),
        n <= values.len(),
        forall|j: int|
            0 <= j < fields_records(schema, desc, values, n).unwrap().len() ==> exists|i: int|
                0 <= i < n && (#[trigger] fields_records(schema, desc, values, n).unwrap()[j]).number
                    == desc[i].number && field_records(schema, desc[i], values[i]) is Some
                    && field_records(schema, desc[i], values[i]).unwrap().len() > 0,
    decreases n,
{
    if n > 0 {
        let head = fields_records(schema, desc, values, (n - 1) as nat).unwrap();
        let more = field_records(schema, desc[n - 1], values[n - 1]).unwrap();
        lemma_fields_records_numbers(schema, desc, values, (n - 1) as nat);
        lemma_field_records_numbers(schema, desc[n - 1], values[n - 1]);
        let all = fields_records(schema, desc, values, n).unwrap();
        assert(all == head + more);
        assert forall|j: int| 0 <= j < all.len() implies exists|i: int|
            0 <= i < n && (#[trigger] all[j]).number == desc[i].number && field_records(
                schema,
                desc[i],
                values[i],
            ) is Some && field_records(schema, desc[i], values[i]).unwrap().len() > 0 by {
            if j < head.len() {
                assert(all[j] == head[j]);
                let i = choose|i: int|
                    0 <= i < n - 1 && head[j].number == desc[i].number && field_records(
                        schema,
                        desc[i],
                        values[i],
                    ) is Some && field_records(schema, desc[i], values[i]).unwrap().len() > 0;
                assert(0 <= i < n && all[j].number == desc[i].number);
            } else {
                assert(all[j] == more[j - head.len()]);
                assert(all[j].number == desc[n - 1].number);
            }
        }
    }
}

/// Whether a record is no group and has a payload that a length of 64 bits
/// can count.
pub open spec fn record_fits(record: Record) -> bool {
    !(record.payload is Group) && payload_len(record.payload) <= u64::MAX
}

/// No payload that the encoder writes is a group, and each fits.
pub proof fn lemma_element_payload_plain(
    schema: Seq<Seq<FieldView>>,
    kind: ElementKind,
    value: ValueView,
)
    ensures
        element_payload(schema, kind, value) matches Some(payload) ==> !(payload is Group)
            && payload_len(payload) <= u64::MAX,
{
}

/// No record of a list is a group, and the payload of each fits.
pub proof fn lemma_items_records_plain(
    schema: Seq<Seq<FieldView>>,
    number: u32,
    kind: ElementKind,
    items: Seq<ValueView>,
    n: nat,
)
    requires
        items_records(schema, number, kind, items, n) is Some,
    ensures
        forall|j: int|
            0 <= j < items_records(schema, number, kind, items, n).unwrap().len() ==> record_fits(
                #[trigger] items_records(schema, number, kind, items, n).unwrap()[j],
            ),
    decreases n,
{
    if n > 0 {
        lemma_items_records_plain(schema, number, kind, items, (n - 1) as nat);
        lemma_element_payload_plain(schema, kind, items[n - 1]);
        let head = items_records(schema, number, kind, items, (n - 1) as nat).unwrap();
        let all = items_records(schema, number, kind, items, n).unwrap();
        assert forall|j: int| 0 <= j < all.len() implies record_fits(#[trigger] all[j]) by {
            if j < head.len() {
                assert(all[j] == head[j]);
            }
        }
    }
}

/// No record of a field is a group, and the payload of each fits.
pub proof fn lemma_field_records_plain(
    schema: Seq<Seq<FieldView>>,
    field: FieldView,
    value: ValueView,
)
    requires
        field_records(schema, field, value) is Some,
    ensures
        forall|j: int|
            0 <= j < field_records(schema, field, value).unwrap().len() ==> record_fits(
                #[trigger] field_records(schema, field, value).unwrap()[j],
            ),
{
    match field.kind {
        FieldKind::Single(kind) => {
            lemma_element_payload_plain(schema, kind, value);
        },
        FieldKind::Repeated(kind) => {
            let items = value->List_0;
            lemma_items_records_plain(schema, field.number, kind, items, items.len());
        },
    }
}

/// No record of an instance's first `n` fields is a group, and the payload
/// of each fits.
pub proof fn lemma_fields_records_plain(
    schema: Seq<Seq<FieldView>>,
    desc: Seq<FieldView>,
    values: Seq<ValueView>,
    n: nat,
)
    requires
        fields_records(schema, desc, values, n) is Some,
    ensures
        forall|j: int|
            0 <= j < fields_records(schema, desc, values, n).unwrap().len() ==> record_fits(
                #[trigger] fields_records(schema, desc, values, n).unwrap()[j],
            ),
    decreases n,
{
    if n > 0 {
        let head = fields_records(schema, desc, values, (n - 1) as nat).unwrap();
        let more = field_records(schema, desc[n - 1], values[n - 1]).unwrap();
        let all = fields_records(schema, desc, values, n).unwrap();
        lemma_fields_records_plain(schema, desc, values, (n - 1) as nat);
        lemma_field_records_plain(schema, desc[n - 1], values[n - 1]);
        assert(all == head + more);
        assert forall|j: int| 0 <= j < all.len() implies record_fits(#[trigger] all[j]) by {
            if j < head.len() {
                assert(all[j] == head[j]);
            } else {
                assert(all[j] == more[j - head.len()]);
            }
        }
    }
}

/// The records of an instance are all records that can be written.
pub proof fn lemma_message_records_valid(
    schema: Seq<Seq<FieldView>>,
    desc: Seq<FieldView>,
    values: Seq<ValueView>,
)
    requires
        descriptor_wf(desc),
        message_records(schema, desc, values) is Some,
    ensures
        records_valid(message_records(schema, desc, values).unwrap()),
{
    let records = message_records(schema, desc, values).unwrap();
    lemma_fields_records_numbers(schema, desc, values, values.len());
    lemma_fields_records_plain(schema, desc, values, values.len());
    assert forall|j: int| 0 <= j < records.len() implies record_valid(#[trigger] records[j]) by {
        assert(record_fits(records[j]));
        let i = choose|i: int|
            0 <= i < values.len() && records[j].number == desc[i].number && field_records(
                schema,
                desc[i],
                values[i],
            ) is Some && field_records(schema, desc[i], values[i]).unwrap().len() > 0;
        assert(MIN_FIELD_NUMBER <= desc[i].number <= MAX_FIELD_NUMBER);
    }
}

/// The values of an instance whose first `n` fields hold their values and
/// whose other fields are as on a fresh instance.
pub open spec fn filled(desc: Seq<FieldView>, values: Seq<ValueView>, n: nat) -> Seq<ValueView> {
    Seq::new(
        desc.len(),
        |j: int|
            if j < n {
                values[j]
            } else {
                default_value(desc[j])
            },
    )
}

/// The record of a scalar that is not zero, read into a single-valued scalar
/// field that belongs to no oneof group, gives the field that scalar and
/// leaves the other fields as they were.
pub proof fn lemma_plain_record_applied(
    schema: Seq<Seq<FieldView>>,
    desc: Seq<FieldView>,
    state: Seq<ValueView>,
    i: int,
    kind: ScalarKind,
    value: ValueView,
)
    requires
        0 <= i < desc.len(),
        state.len() == desc.len(),
        desc[i].kind == FieldKind::Single(ElementKind::Scalar(kind)),
        desc[i].oneof_group is None,
        find_field(desc, desc[i].number) == Some(i),
        scalar_matches(kind, value),
        !is_zero(value),
    ensures
        applied_records(schema, desc, state, plain_scalar_records(desc[i].number, value)) == Ok::<
            Seq<ValueView>,
            DecodeError,
        >(state.update(i, value)),
{
    reveal_with_fuel(applied_records, 2);
    let records = plain_scalar_records(desc[i].number, value);
    let record = records[0];
    lemma_plain_round_trip(ElementKind::Scalar(kind), value);
    assert(decoded_element(schema, ElementKind::Scalar(kind), record.payload) == Ok::<
        ValueView,
        DecodeError,
    >(value));
    assert(store(desc, state, i, value) =~= state.update(i, value));
    assert(applied_record(schema, desc, state, record) == Ok::<Seq<ValueView>, DecodeError>(
        state.update(i, value),
    ));
    assert(records.skip(1).len() == 0);
}

/// The one field of a nullable scalar's message is found under number 1.
pub proof fn lemma_wrapper_field(kind: ScalarKind)
    ensures
        find_field(wrapper_descriptor(kind), 1) == Some(0int),
{
    reveal_with_fuel(crate::descriptors::find_field_from, 2);
}

/// The two fields of a temporal message are found under numbers 1 and 2.
pub proof fn lemma_temporal_fields()
    ensures
        find_field(temporal_descriptor(), 1) == Some(0int),
        find_field(temporal_descriptor(), 2) == Some(1int),
{
    reveal_with_fuel(crate::descriptors::find_field_from, 3);
}

/// A nullable scalar that is present is read back from the bytes of its
/// message.
pub proof fn lemma_wrapper_round_trip(
    schema: Seq<Seq<FieldView>>,
    kind: ScalarKind,
    value: ValueView,
)
    requires
        scalar_matches(kind, value),
        wrapped_bytes(value).len() <= u64::MAX,
    ensures
        decoded_message(schema, wrapper_descriptor(kind), wrapped_bytes(value)) == Ok::<
            Seq<ValueView>,
            DecodeError,
        >(seq![value]),
{
    let desc = wrapper_descriptor(kind);
    let records = plain_scalar_records(1, value);
    let state = default_values(desc);
    assert(state =~= seq![zero_value(kind)]);
    if is_zero(value) {
        lemma_zero_is_zero_value(kind, value);
        assert(records_valid(records));
        lemma_decoded_fields_of_records(schema, desc, state, records);
    } else {
        lemma_payload_within(records, 0);
        assert(records_valid(records));
        lemma_decoded_fields_of_records(schema, desc, state, records);
        lemma_wrapper_field(kind);
        lemma_plain_record_applied(schema, desc, state, 0, kind, value);
        assert(state.update(0, value) =~= seq![value]);
    }
}

/// The seconds and the nanoseconds of a duration or a timestamp are read back
/// from the bytes of its message.
pub proof fn lemma_temporal_round_trip(schema: Seq<Seq<FieldView>>, seconds: i64, nanos: i32)
    ensures
        decoded_message(schema, temporal_descriptor(), temporal_bytes(seconds, nanos)) == Ok::<
            Seq<ValueView>,
            DecodeError,
        >(seq![ValueView::Int64(seconds), ValueView::Int32(nanos)]),
{
    let desc = temporal_descriptor();
    let first = plain_scalar_records(1, ValueView::Int64(seconds));
    let second = plain_scalar_records(2, ValueView::Int32(nanos));
    let state = default_values(desc);
    let mid = seq![ValueView::Int64(seconds), ValueView::Int32(0)];
    let last = seq![ValueView::Int64(seconds), ValueView::Int32(nanos)];
    assert(state =~= seq![ValueView::Int64(0), ValueView::Int32(0)]);
    assert(records_valid(first + second));
    lemma_decoded_fields_of_records(schema, desc, state, first + second);
    lemma_applied_records_concat(schema, desc, state, first, second);
    lemma_temporal_fields();
    if seconds != 0 {
        lemma_plain_record_applied(
            schema,
            desc,
            state,
            0,
            ScalarKind::Int64,
            ValueView::Int64(seconds),
        );
        assert(state.update(0, ValueView::Int64(seconds)) =~= mid);
    } else {
        assert(mid =~= state);
    }
    assert(applied_records(schema, desc, state, first) == Ok::<Seq<ValueView>, DecodeError>(mid));
    if nanos != 0 {
        lemma_plain_record_applied(
            schema,
            desc,
            mid,
            1,
            ScalarKind::Int32,
            ValueView::Int32(nanos),
        );
        assert(mid.update(1, ValueView::Int32(nanos)) =~= last);
    } else {
        assert(last =~= mid);
    }
    assert(applied_records(schema, desc, mid, second) == Ok::<Seq<ValueView>, DecodeError>(last));
}

/// The descriptor of a map's entries is well-formed.
pub proof fn lemma_entry_descriptor_wf(key: ScalarKind, value: MapValueKind)
    ensures
        descriptor_wf(entry_descriptor(key, value)),
{
}

/// A scalar or an enumeration value is read back from its payload as an
/// element.
pub proof fn lemma_plain_element_round_trip(
    schema: Seq<Seq<FieldView>>,
    kind: ElementKind,
    value: ValueView,
)
    requires
        kind is Scalar || kind is Enum,
        element_payload(schema, kind, value) is Some,
    ensures
        decoded_element(schema, kind, element_payload(schema, kind, value).unwrap()) == Ok::<
            ValueView,
            DecodeError,
        >(value),
{
    lemma_plain_round_trip(kind, value);
}

/// A nullable scalar is read back from its payload.
pub proof fn lemma_wrapped_element_round_trip(
    schema: Seq<Seq<FieldView>>,
    kind: ScalarKind,
    value: ValueView,
)
    requires
        element_payload(schema, ElementKind::Wrapped(kind), value) is Some,
        payload_len(element_payload(schema, ElementKind::Wrapped(kind), value).unwrap())
            <= u64::MAX,
    ensures
        decoded_element(
            schema,
            ElementKind::Wrapped(kind),
            element_payload(schema, ElementKind::Wrapped(kind), value).unwrap(),
        ) == Ok::<ValueView, DecodeError>(value),
{
    lemma_wrapper_round_trip(Seq::empty(), kind, value);
}

/// A duration is read back from its payload.
pub proof fn lemma_duration_element_round_trip(schema: Seq<Seq<FieldView>>, value: ValueView)
    requires
        element_payload(schema, ElementKind::Duration, value) is Some,
    ensures
        decoded_element(
            schema,
            ElementKind::Duration,
            element_payload(schema, ElementKind::Duration, value).unwrap(),
        ) == Ok::<ValueView, DecodeError>(value),
{
    let d = value->Duration_0;
    lemma_temporal_round_trip(Seq::empty(), d.seconds, d.nanos);
    lemma_duration_is_canonical(d);
}

/// A timestamp is read back from its payload.
pub proof fn lemma_timestamp_element_round_trip(schema: Seq<Seq<FieldView>>, value: ValueView)
    requires
        element_payload(schema, ElementKind::Timestamp, value) is Some,
    ensures
        decoded_element(
            schema,
            ElementKind::Timestamp,
            element_payload(schema, ElementKind::Timestamp, value).unwrap(),
        ) == Ok::<ValueView, DecodeError>(value),
{
    let t = value->Timestamp_0;
    lemma_temporal_round_trip(Seq::empty(), t.seconds, t.nanos);
    lemma_timestamp_is_canonical(t);
}

/// A value is read back from its payload.
pub proof fn lemma_element_round_trip(
    schema: Seq<Seq<FieldView>>,
    kind: ElementKind,
    value: ValueView,
)
    requires
        schema_wf(schema),
        element_payload(schema, kind, value) is Some,
        payload_len(element_payload(schema, kind, value).unwrap()) <= u64::MAX,
    ensures
        decoded_element(schema, kind, element_payload(schema, kind, value).unwrap()) == Ok::<
            ValueView,
            DecodeError,
        >(value),
    decreases value, 0nat,
{
    match kind {
        ElementKind::Scalar(_) => {
            lemma_plain_element_round_trip(schema, kind, value);
        },
        ElementKind::Enum => {
            lemma_plain_element_round_trip(schema, kind, value);
        },
        ElementKind::Wrapped(k) => {
            lemma_wrapped_element_round_trip(schema, k, value);
        },
        ElementKind::Duration => {
            lemma_duration_element_round_trip(schema, value);
        },
        ElementKind::Timestamp => {
            lemma_timestamp_element_round_trip(schema, value);
        },
        ElementKind::Message(id) => {
            let values = value->Message_0;
            theorem_round_trip(schema, schema[id as int], values);
        },
        ElementKind::MapEntry(k, v) => {
            let values = value->Message_0;
            lemma_entry_descriptor_wf(k, v);
            theorem_round_trip(schema, entry_descriptor(k, v), values);
        },
    }
}

/// The items of a list are read back from their records, each added behind
/// what the field held.
pub proof fn lemma_items_round_trip(
    schema: Seq<Seq<FieldView>>,
    desc: Seq<FieldView>,
    state: Seq<ValueView>,
    i: int,
    kind: ElementKind,
    items: Seq<ValueView>,
    n: nat,
)
    requires
        schema_wf(schema),
        descriptor_wf(desc),
        0 <= i < desc.len(),
        state.len() == desc.len(),
        desc[i].kind == FieldKind::Repeated(kind),
        state[i] is List,
        n <= items.len(),
        items_records(schema, desc[i].number, kind, items, n) is Some,
        forall|j: int|
            0 <= j < n ==> payload_len(
                (#[trigger] items_records(schema, desc[i].number, kind, items, n).unwrap()[j]).payload,
            ) <= u64::MAX,
    ensures
        applied_records(
            schema,
            desc,
            state,
            items_records(schema, desc[i].number, kind, items, n).unwrap(),
        ) == Ok::<Seq<ValueView>, DecodeError>(
            state.update(i, ValueView::List(list_items(state[i]) + items.take(n as int))),
        ),
    decreases items, n,
{
    let number = desc[i].number;
    if n == 0 {
        assert(list_items(state[i]) + items.take(0) =~= list_items(state[i]));
        assert(state.update(i, ValueView::List(list_items(state[i]))) =~= state);
    } else {
        let head = items_records(schema, number, kind, items, (n - 1) as nat).unwrap();
        let all = items_records(schema, number, kind, items, n).unwrap();
        let item = items[n - 1];
        let payload = element_payload(schema, kind, item).unwrap();
        let record = Record { number, payload };
        assert(all == head.push(record));
        assert(all =~= head + seq![record]);
        lemma_items_records_numbers(schema, number, kind, items, n);
        lemma_items_records_numbers(schema, number, kind, items, (n - 1) as nat);
        assert forall|j: int| 0 <= j < n - 1 implies payload_len((#[trigger] head[j]).payload)
            <= u64::MAX by {
            assert(head[j] == all[j]);
        }
        lemma_items_round_trip(schema, desc, state, i, kind, items, (n - 1) as nat);
        lemma_applied_records_concat(schema, desc, state, head, seq![record]);
        let mid = state.update(
            i,
            ValueView::List(list_items(state[i]) + items.take(n - 1)),
        );
        assert(all[n - 1] == record);
        lemma_element_round_trip(schema, kind, item);
        lemma_find_field_unique(desc, i);
        assert(decoded_items(schema, kind, payload) == Ok::<Seq<ValueView>, DecodeError>(
            seq![item],
        ));
        let last = state.update(i, ValueView::List(list_items(state[i]) + items.take(n as int)));
        assert(list_items(mid[i]) + seq![item] =~= list_items(state[i]) + items.take(n as int));
        assert(mid.update(i, ValueView::List(list_items(mid[i]) + seq![item])) =~= last);
        assert(applied_record(schema, desc, mid, record) == Ok::<Seq<ValueView>, DecodeError>(
            last,
        ));
        reveal_with_fuel(applied_records, 2);
        assert(seq![record].skip(1).len() == 0);
        assert(applied_records(schema, desc, mid, seq![record]) == Ok::<
            Seq<ValueView>,
            DecodeError,
        >(last));
    }
}

/// The value of a field is read back from the field's records, into an
/// instance on which the field is as on a fresh instance and, where a member
/// of a oneof group is given a value, the other members of the group hold
/// nothing.
pub proof fn lemma_field_round_trip(
    schema: Seq<Seq<FieldView>>,
    desc: Seq<FieldView>,
    state: Seq<ValueView>,
    i: int,
    value: ValueView,
)
    requires
        schema_wf(schema),
        descriptor_wf(desc),
        0 <= i < desc.len(),
        state.len() == desc.len(),
        state[i] == default_value(desc[i]),
        field_records(schema, desc[i], value) is Some,
        forall|j: int|
            0 <= j < field_records(schema, desc[i], value).unwrap().len() ==> payload_len(
                (#[trigger] field_records(schema, desc[i], value).unwrap()[j]).payload,
            ) <= u64::MAX,
        !(value is Null) && desc[i].oneof_group is Some ==> forall|j: int|
            0 <= j < desc.len() && j != i && (#[trigger] desc[j]).oneof_group
                == desc[i].oneof_group ==> state[j] is Null,
    ensures
        applied_records(schema, desc, state, field_records(schema, desc[i], value).unwrap())
            == Ok::<Seq<ValueView>, DecodeError>(state.update(i, value)),
    decreases value, 1nat,
{
    let field = desc[i];
    let records = field_records(schema, field, value).unwrap();
    match field.kind {
        FieldKind::Single(kind) => {
            if value is Null {
                assert(state.update(i, value) =~= state);
            } else if omits_zero(field) && is_zero(value) {
                match kind {
                    ElementKind::Scalar(k) => {
                        lemma_zero_is_zero_value(k, value);
                    },
                    _ => {},
                }
                assert(state.update(i, value) =~= state);
            } else {
                let payload = element_payload(schema, kind, value).unwrap();
                let record = Record { number: field.number, payload };
                assert(records[0] == record);
                lemma_element_round_trip(schema, kind, value);
                lemma_find_field_unique(desc, i);
                assert(store(desc, state, i, value) =~= state.update(i, value));
                assert(applied_record(schema, desc, state, record) == Ok::<
                    Seq<ValueView>,
                    DecodeError,
                >(state.update(i, value)));
                reveal_with_fuel(applied_records, 2);
                assert(records.skip(1).len() == 0);
            }
        },
        FieldKind::Repeated(kind) => {
            let items = value->List_0;
            lemma_items_records_numbers(schema, field.number, kind, items, items.len());
            lemma_items_round_trip(schema, desc, state, i, kind, items, items.len());
            assert(items.take(items.len() as int) =~= items);
            assert(list_items(state[i]) + items =~= items);
        },
    }
}

/// The values of the first `n` fields are read back from the records of
/// those fields, into a fresh instance.
pub proof fn lemma_fields_round_trip(
    schema: Seq<Seq<FieldView>>,
    desc: Seq<FieldView>,
    values: Seq<ValueView>,
    n: nat,
)
    requires
        schema_wf(schema),
        descriptor_wf(desc),
        values.len() == desc.len(),
        n <= values.len(),
        oneof_exclusive(desc, values),
        fields_records(schema, desc, values, n) is Some,
        forall|j: int|
            0 <= j < fields_records(schema, desc, values, n).unwrap().len() ==> payload_len(
                (#[trigger] fields_records(schema, desc, values, n).unwrap()[j]).payload,
            ) <= u64::MAX,
    ensures
        applied_records(
            schema,
            desc,
            default_values(desc),
            fields_records(schema, desc, values, n).unwrap(),
        ) == Ok::<Seq<ValueView>, DecodeError>(filled(desc, values, n)),
    decreases values, n,
{
    if n == 0 {
        assert(filled(desc, values, 0) =~= default_values(desc));
    } else {
        let i = (n - 1) as int;
        let head = fields_records(schema, desc, values, (n - 1) as nat).unwrap();
        let more = field_records(schema, desc[i], values[i]).unwrap();
        let all = fields_records(schema, desc, values, n).unwrap();
        assert(all == head + more);
        assert forall|j: int| 0 <= j < head.len() implies payload_len((#[trigger] head[j]).payload)
            <= u64::MAX by {
            assert(head[j] == all[j]);
        }
        assert forall|j: int| 0 <= j < more.len() implies payload_len((#[trigger] more[j]).payload)
            <= u64::MAX by {
            assert(more[j] == all[head.len() + j]);
        }
        lemma_fields_round_trip(schema, desc, values, (n - 1) as nat);
        lemma_applied_records_concat(schema, desc, default_values(desc), head, more);
        let mid = filled(desc, values, (n - 1) as nat);
        assert forall|j: int|
            0 <= j < desc.len() && j != i && !(values[i] is Null) && desc[i].oneof_group is Some && (
            #[trigger] desc[j]).oneof_group == desc[i].oneof_group implies mid[j] is Null by {
            if j < i {
                assert(desc[j].oneof_group == desc[i].oneof_group);
            } else {
                assert(desc[j].kind is Single);
            }
        }
        lemma_field_round_trip(schema, desc, mid, i, values[i]);
        assert(mid.update(i, values[i]) =~= filled(desc, values, n));
    }
}

/// Decoding undoes encoding: an instance that can be encoded is read back
/// from its wire bytes as it was.
pub proof fn theorem_round_trip(
    schema: Seq<Seq<FieldView>>,
    desc: Seq<FieldView>,
    values: Seq<ValueView>,
)
    requires
        schema_wf(schema),
        descriptor_wf(desc),
        message_bytes(schema, desc, values) is Some,
    ensures
        decoded_message(schema, desc, message_bytes(schema, desc, values).unwrap()) == Ok::<
            Seq<ValueView>,
            DecodeError,
        >(values),
    decreases values, values.len() + 2,
{
    let records = message_records(schema, desc, values).unwrap();
    lemma_message_records_valid(schema, desc, values);
    lemma_decoded_fields_of_records(schema, desc, default_values(desc), records);
    lemma_fields_records_plain(schema, desc, values, values.len());
    assert forall|j: int| 0 <= j < records.len() implies payload_len(
        (#[trigger] records[j]).payload,
    ) <= u64::MAX by {
        assert(record_fits(records[j]));
    }
    lemma_fields_round_trip(schema, desc, values, values.len());
    assert(filled(desc, values, values.len()) =~= values);
}

/// A single-valued scalar or enumeration field that belongs to no oneof
/// group and holds zero leaves no record with its number among the records
/// of the instance.
pub proof fn theorem_zero_is_omitted(
    schema: Seq<Seq<FieldView>>,
    desc: Seq<FieldView>,
    values: Seq<ValueView>,
    i: int,
)
    requires
        descriptor_wf(desc),
        message_records(schema, desc, values) is Some,
        0 <= i < desc.len(),
        omits_zero(desc[i]),
        is_zero(values[i]),
    ensures
        forall|j: int|
            0 <= j < message_records(schema, desc, values).unwrap().len() ==> (
            #[trigger] message_records(schema, desc, values).unwrap()[j]).number != desc[i].number,
{
    let records = message_records(schema, desc, values).unwrap();
    lemma_fields_records_numbers(schema, desc, values, values.len());
    assert forall|j: int| 0 <= j < records.len() implies (#[trigger] records[j]).number
        != desc[i].number by {
        let k = choose|k: int|
            0 <= k < values.len() && records[j].number == desc[k].number && field_records(
                schema,
                desc[k],
                values[k],
            ) is Some && field_records(schema, desc[k], values[k]).unwrap().len() > 0;
        if k < i {
            assert(desc[k].number < desc[i].number);
        } else if i < k {
            assert(desc[i].number < desc[k].number);
        }
    }
}

/// Whether a record with the given field number stands among the records
/// that the bytes `s` are made of.
pub open spec fn mentions(s: Seq<u8>, number: u32) -> bool
    decreases s.len(),
{
    if s.len() == 0 {
        false
    } else {
        match parse_record(s) {
            Some((record, n)) => if 0 < n <= s.len() {
                record.number == number || mentions(s.skip(n as int), number)
            } else {
                false
            },
            None => false,
        }
    }
}

/// Reading a record keeps the number of values.
pub proof fn lemma_applied_record_len(
    schema: Seq<Seq<FieldView>>,
    desc: Seq<FieldView>,
    state: Seq<ValueView>,
    record: Record,
)
    ensures
        applied_record(schema, desc, state, record) matches Ok(next) ==> next.len() == state.len(),
{
}

/// A record leaves a field of another number as it was, or, where that
/// field is a member of a oneof group, holding nothing.
pub proof fn lemma_applied_record_other_field(
    schema: Seq<Seq<FieldView>>,
    desc: Seq<FieldView>,
    state: Seq<ValueView>,
    record: Record,
    i: int,
)
    requires
        0 <= i < desc.len(),
        state.len() == desc.len(),
        record.number != desc[i].number,
    ensures
        applied_record(schema, desc, state, record) matches Ok(next) ==> next[i] == state[i] || (
        desc[i].oneof_group is Some && next[i] is Null),
{
    lemma_find_field_from(desc, record.number, 0);
}

/// A field whose number no record carries is, after decoding, as it was
/// before, where it was as on a fresh instance.
pub proof fn lemma_absent_field_unchanged(
    schema: Seq<Seq<FieldView>>,
    desc: Seq<FieldView>,
    s: Seq<u8>,
    state: Seq<ValueView>,
    i: int,
)
    requires
        descriptor_wf(desc),
        0 <= i < desc.len(),
        state.len() == desc.len(),
        state[i] == default_value(desc[i]),
        !mentions(s, desc[i].number),
        decoded_fields(schema, desc, s, state) is Ok,
    ensures
        decoded_fields(schema, desc, s, state).unwrap()[i] == default_value(desc[i]),
    decreases s.len(),
{
    if s.len() > 0 {
        let (record, n) = parse_record(s).unwrap();
        let next = applied_record(schema, desc, state, record).unwrap();
        lemma_applied_record_len(schema, desc, state, record);
        lemma_applied_record_other_field(schema, desc, state, record, i);
        assert(desc[i].oneof_group is Some ==> desc[i].kind is Single);
        lemma_absent_field_unchanged(schema, desc, s.skip(n as int), next, i);
    }
}

/// A field whose number no record of the bytes carries has, on the decoded
/// instance, the value it has on a fresh one: zero for a scalar, nothing for
/// a nullable field, the empty list for a repeated one.
pub proof fn theorem_absent_field_is_default(
    schema: Seq<Seq<FieldView>>,
    desc: Seq<FieldView>,
    s: Seq<u8>,
    i: int,
)
    requires
        descriptor_wf(desc),
        0 <= i < desc.len(),
        !mentions(s, desc[i].number),
        decoded_message(schema, desc, s) is Ok,
    ensures
        decoded_message(schema, desc, s).unwrap()[i] == default_value(desc[i]),
{
    lemma_absent_field_unchanged(schema, desc, s, default_values(desc), i);
}

/// After a record of a member of a oneof group was read, that member holds
/// the record's value and every other member of the group holds nothing.
pub proof fn theorem_oneof_record(
    schema: Seq<Seq<FieldView>>,
    desc: Seq<FieldView>,
    state: Seq<ValueView>,
    record: Record,
    i: int,
)
    requires
        descriptor_wf(desc),
        state.len() == desc.len(),
        find_field(desc, record.number) == Some(i),
        desc[i].oneof_group is Some,
        applied_record(schema, desc, state, record) is Ok,
    ensures
        desc[i].kind matches FieldKind::Single(kind) && Ok::<ValueView, DecodeError>(
            applied_record(schema, desc, state, record).unwrap()[i],
        ) == decoded_element(schema, kind, record.payload),
        forall|j: int|
            0 <= j < desc.len() && j != i && (#[trigger] desc[j]).oneof_group
                == desc[i].oneof_group ==> applied_record(
                schema,
                desc,
                state,
                record,
            ).unwrap()[j] is Null,
{
    lemma_find_field_from(desc, record.number, 0);
}

/// The last member of a oneof group on the wire wins: where the wire bytes
/// hold a record of one member of a group and then a record of another
/// member of the same group, the decoded instance holds the second record's
/// value and nothing for the first member.
pub proof fn theorem_oneof_last_wins(
    schema: Seq<Seq<FieldView>>,
    desc: Seq<FieldView>,
    first: Record,
    second: Record,
    i: int,
    j: int,
)
    requires
        descriptor_wf(desc),
        record_valid(first),
        record_valid(second),
        find_field(desc, first.number) == Some(i),
        find_field(desc, second.number) == Some(j),
        i != j,
        desc[i].oneof_group is Some,
        desc[i].oneof_group == desc[j].oneof_group,
        decoded_message(schema, desc, record_bytes(first) + record_bytes(second)) is Ok,
    ensures
        desc[j].kind matches FieldKind::Single(kind) && Ok::<ValueView, DecodeError>(
            decoded_message(schema, desc, record_bytes(first) + record_bytes(second)).unwrap()[j],
        ) == decoded_element(schema, kind, second.payload),
        decoded_message(schema, desc, record_bytes(first) + record_bytes(second)).unwrap()[i]
            is Null,
{
    reveal_with_fuel(applied_records, 3);
    reveal_with_fuel(records_bytes, 3);
    let records = seq![first, second];
    assert(records.skip(1) =~= seq![second]);
    assert(records.skip(1).skip(1) =~= Seq::<Record>::empty());
    assert(records_bytes(records) =~= record_bytes(first) + record_bytes(second));
    assert(records_valid(records));
    let state = default_values(desc);
    lemma_decoded_fields_of_records(schema, desc, state, records);
    lemma_find_field_from(desc, first.number, 0);
    lemma_find_field_from(desc, second.number, 0);
    let mid = applied_record(schema, desc, state, first).unwrap();
    lemma_applied_record_len(schema, desc, state, first);
    theorem_oneof_record(schema, desc, mid, second, j);
}

/// Reading a record keeps the members of each oneof group exclusive.
pub proof fn lemma_applied_record_exclusive(
    schema: Seq<Seq<FieldView>>,
    desc: Seq<FieldView>,
    state: Seq<ValueView>,
    record: Record,
)
    requires
        descriptor_wf(desc),
        state.len() == desc.len(),
        oneof_exclusive(desc, state),
        applied_record(schema, desc, state, record) is Ok,
    ensures
        oneof_exclusive(desc, applied_record(schema, desc, state, record).unwrap()),
{
    lemma_find_field_from(desc, record.number, 0);
    let next = applied_record(schema, desc, state, record).unwrap();
    match find_field(desc, record.number) {
        None => {},
        Some(i) => {
            assert forall|a: int, b: int|
                0 <= a < b < desc.len() && b < next.len() && (#[trigger] desc[a]).oneof_group
                    is Some && desc[a].oneof_group == (#[trigger] desc[b]).oneof_group implies next[a]
                is Null || next[b] is Null by {
                assert(desc[a].kind is Single);
                assert(desc[b].kind is Single);
            }
        },
    }
}

/// Decoding keeps the members of each oneof group exclusive.
pub proof fn lemma_decoded_fields_exclusive(
    schema: Seq<Seq<FieldView>>,
    desc: Seq<FieldView>,
    s: Seq<u8>,
    state: Seq<ValueView>,
)
    requires
        descriptor_wf(desc),
        state.len() == desc.len(),
        oneof_exclusive(desc, state),
        decoded_fields(schema, desc, s, state) is Ok,
    ensures
        oneof_exclusive(desc, decoded_fields(schema, desc, s, state).unwrap()),
        decoded_fields(schema, desc, s, state).unwrap().len() == desc.len(),
    decreases s.len(),
{
    if s.len() > 0 {
        let (record, n) = parse_record(s).unwrap();
        let next = applied_record(schema, desc, state, record).unwrap();
        lemma_applied_record_len(schema, desc, state, record);
        lemma_applied_record_exclusive(schema, desc, state, record);
        lemma_decoded_fields_exclusive(schema, desc, s.skip(n as int), next);
    }
}

/// On a decoded instance at most one member of each oneof group holds a
/// value, and the instance has one value for each field.
pub proof fn theorem_decoded_is_exclusive(
    schema: Seq<Seq<FieldView>>,
    desc: Seq<FieldView>,
    s: Seq<u8>,
)
    requires
        descriptor_wf(desc),
        decoded_message(schema, desc, s) is Ok,
    ensures
        oneof_exclusive(desc, decoded_message(schema, desc, s).unwrap()),
        decoded_message(schema, desc, s).unwrap().len() == desc.len(),
{
    let state = default_values(desc);
    assert forall|a: int, b: int|
        0 <= a < b < desc.len() && b < state.len() && (#[trigger] desc[a]).oneof_group is Some
            && desc[a].oneof_group == (#[trigger] desc[b]).oneof_group implies state[a] is Null
        || state[b] is Null by {
        assert(desc[a].kind is Single);
    }
    lemma_decoded_fields_exclusive(schema, desc, s, state);
}

/// Among the records of an instance at most one member of each oneof group
/// has a record.
pub proof fn theorem_one_member_encoded(
    schema: Seq<Seq<FieldView>>,
    desc: Seq<FieldView>,
    values: Seq<ValueView>,
    i: int,
    j: int,
)
    requires
        message_records(schema, desc, values) is Some,
        0 <= i < j < desc.len(),
        desc[i].oneof_group is Some,
        desc[i].oneof_group == desc[j].oneof_group,
        desc[i].kind is Single,
        desc[j].kind is Single,
    ensures
        field_records(schema, desc[i], values[i]) == Some(Seq::<Record>::empty())
            || field_records(schema, desc[j], values[j]) == Some(Seq::<Record>::empty()),
{
    lemma_fields_records_some(schema, desc, values, values.len(), i);
    lemma_fields_records_some(schema, desc, values, values.len(), j);
}

/// Where the first `n` fields can be encoded, each of them can.
pub proof fn lemma_fields_records_some(
    schema: Seq<Seq<FieldView>>,
    desc: Seq<FieldView>,
    values: Seq<ValueView>,
    n: nat,
    i: int,
)
    requires
        fields_records(schema, desc, values, n) is Some,
        0 <= i < n,
    ensures
        field_records(schema, desc[i], values[i]) is Some,
    decreases n,
{
    if i < n - 1 {
        lemma_fields_records_some(schema, desc, values, (n - 1) as nat, i);
    }
}

/// A nullable scalar whose message is present on the wire and empty is read
/// as the scalar's zero, which is a value and not the absence of one; a field
/// of that kind holds nothing on a fresh instance.
pub proof fn theorem_empty_wrapper_is_zero(schema: Seq<Seq<FieldView>>, kind: ScalarKind)
    ensures
        decoded_element(schema, ElementKind::Wrapped(kind), Payload::Delimited(Seq::empty()))
            == Ok::<ValueView, DecodeError>(zero_value(kind)),
        decoded_wrapped(kind, Seq::empty()) == Ok::<ValueView, DecodeError>(zero_value(kind)),
        !(zero_value(kind) is Null),
        default_value(
            FieldView {
                number: 1,
                name: Seq::empty(),
                kind: FieldKind::Single(ElementKind::Wrapped(kind)),
                oneof_group: None,
            },
        ) is Null,
{
    let desc = wrapper_descriptor(kind);
    assert(default_values(desc)[0] == zero_value(kind));
}

/// A record whose number the descriptor does not know leaves every value as
/// it was.
pub proof fn theorem_unknown_record_ignored(
    schema: Seq<Seq<FieldView>>,
    desc: Seq<FieldView>,
    state: Seq<ValueView>,
    record: Record,
)
    requires
        find_field(desc, record.number) is None,
    ensures
        applied_record(schema, desc, state, record) == Ok::<Seq<ValueView>, DecodeError>(state),
{
}

/// A valid record whose number the descriptor does not know, standing before
/// any bytes, changes nothing of what those bytes decode to.
pub proof fn theorem_unknown_field_skipped(
    schema: Seq<Seq<FieldView>>,
    desc: Seq<FieldView>,
    state: Seq<ValueView>,
    record: Record,
    rest: Seq<u8>,
)
    requires
        record_valid(record),
        find_field(desc, record.number) is None,
    ensures
        decoded_fields(schema, desc, record_bytes(record) + rest, state) == decoded_fields(
            schema,
            desc,
            rest,
            state,
        ),
{
    let s = record_bytes(record) + rest;
    let n = record_bytes(record).len();
    lemma_parse_record_bytes(record, rest);
    lemma_parse_record_bounds(s);
    assert(parse_record(s) == Some((record, n)));
    assert(s.len() > 0);
    assert(payload_len(record.payload) < s.len());
    assert(s.skip(n as int) =~= rest);
    assert(applied_record(schema, desc, state, record) == Ok::<Seq<ValueView>, DecodeError>(
        state,
    ));
}

/// Whatever record stands at the start of the bytes under a number that the
/// descriptor does not know, a group with all its records too, is passed
/// over: the bytes decode to what the bytes behind that record decode to.
pub proof fn theorem_unknown_bytes_skipped(
    schema: Seq<Seq<FieldView>>,
    desc: Seq<FieldView>,
    state: Seq<ValueView>,
    s: Seq<u8>,
)
    requires
        parse_record(s) is Some,
        find_field(desc, parse_record(s).unwrap().0.number) is None,
    ensures
        decoded_fields(schema, desc, s, state) == decoded_fields(
            schema,
            desc,
            s.skip(parse_record(s).unwrap().1 as int),
            state,
        ),
{
    lemma_parse_record_bounds(s);
    let (record, n) = parse_record(s).unwrap();
    assert(s.len() > 0);
    assert(0 < n <= s.len());
    assert(payload_len(record.payload) < s.len());
    assert(applied_record(schema, desc, state, record) == Ok::<Seq<ValueView>, DecodeError>(
        state,
    ));
}

} // verus!
