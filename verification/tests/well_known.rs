use betterproto_rust_codec::betterproto_interop::{InteropError, Value};
use betterproto_rust_codec::decode::DecodeError;
use betterproto_rust_codec::encode::EncodeError;
use betterproto_rust_codec::well_known_types::{
    BoolValue, BytesValue, DoubleValue, Duration, FloatValue, HostDateTime, Int32Value,
    Int64Value, StringValue, Timestamp, UInt32Value, UInt64Value, NANOS_PER_SEC,
};

#[test]
fn duration_of_minus_half_a_second() {
    let delta = chrono::TimeDelta::milliseconds(-500);
    let duration = Duration::from_time_delta(&delta);
    assert_eq!(duration, Duration { seconds: -1, nanos: 500_000_000 });
    assert_eq!(duration.try_to_time_delta(), Ok(delta));
    assert_eq!(duration.try_to_object(), Ok(Value::Duration(duration)));
}

#[test]
fn duration_from_parts_borrows_a_second() {
    assert_eq!(Duration::from_parts(0, -500_000_000), Duration { seconds: -1, nanos: 500_000_000 });
    assert_eq!(Duration::from_parts(-3, -1), Duration { seconds: -4, nanos: 999_999_999 });
    assert_eq!(Duration::from_parts(5, 250), Duration { seconds: 5, nanos: 250 });
    assert_eq!(Duration::from_parts(-5, 0), Duration { seconds: -5, nanos: 0 });
    assert_eq!(Duration::from_parts(i64::MIN, -1), Duration { seconds: i64::MIN, nanos: -1 });
    assert_eq!(NANOS_PER_SEC, 1_000_000_000);
}

#[test]
fn duration_from_time_delta_of_whole_and_positive_spans() {
    assert_eq!(
        Duration::from_time_delta(&chrono::TimeDelta::seconds(90)),
        Duration { seconds: 90, nanos: 0 }
    );
    assert_eq!(
        Duration::from_time_delta(&chrono::TimeDelta::nanoseconds(1_500_000_001)),
        Duration { seconds: 1, nanos: 500_000_001 }
    );
    assert_eq!(
        Duration::from_time_delta(&chrono::TimeDelta::nanoseconds(-1)),
        Duration { seconds: -1, nanos: 999_999_999 }
    );
    assert_eq!(
        Duration::from_time_delta(&chrono::TimeDelta::seconds(-7)),
        Duration { seconds: -7, nanos: 0 }
    );
    assert_eq!(
        Duration::from_time_delta(&chrono::TimeDelta::zero()),
        Duration { seconds: 0, nanos: 0 }
    );
}

#[test]
fn duration_decoding_normalizes_the_sign() {
    let read = Duration { seconds: 0, nanos: -500_000_000 };
    assert_eq!(read.normalized(), Some(Duration { seconds: -1, nanos: 500_000_000 }));
    assert_eq!(
        read.try_to_object(),
        Ok(Value::Duration(Duration { seconds: -1, nanos: 500_000_000 }))
    );
    assert_eq!(read.try_to_time_delta(), Ok(chrono::TimeDelta::milliseconds(-500)));
    let read = Duration { seconds: 2, nanos: -1 };
    assert_eq!(
        read.try_to_time_delta(),
        Ok(chrono::TimeDelta::nanoseconds(1_999_999_999))
    );
}

#[test]
fn duration_with_nanos_beyond_a_second_is_invalid() {
    let read = Duration { seconds: 1, nanos: 1_000_000_000 };
    assert_eq!(read.try_to_object(), Err(DecodeError::InvalidData));
    assert_eq!(read.try_to_time_delta(), Err(DecodeError::InvalidData));
    let read = Duration { seconds: 1, nanos: -1_000_000_001 };
    assert_eq!(read.try_to_object(), Err(DecodeError::InvalidData));
    assert_eq!(read.try_to_time_delta(), Err(DecodeError::InvalidData));
    let read = Duration { seconds: 1, nanos: -1_000_000_000 };
    assert_eq!(read.try_to_object(), Ok(Value::Duration(Duration { seconds: 0, nanos: 0 })));
}

#[test]
fn duration_beyond_what_the_host_holds_is_invalid() {
    let most = Duration { seconds: 9_223_372_036_854_775, nanos: 807_000_000 };
    assert_eq!(most.try_to_time_delta(), Ok(chrono::TimeDelta::MAX));
    assert_eq!(most.try_to_object(), Ok(Value::Duration(most)));
    let over = Duration { seconds: 9_223_372_036_854_775, nanos: 807_000_001 };
    assert_eq!(over.try_to_object(), Err(DecodeError::InvalidData));
    let over = Duration { seconds: 9_223_372_036_854_776, nanos: 0 };
    assert_eq!(over.try_to_object(), Err(DecodeError::InvalidData));
    let least = Duration { seconds: -9_223_372_036_854_776, nanos: 193_000_000 };
    assert_eq!(least.try_to_time_delta(), Ok(chrono::TimeDelta::MIN));
    let under = Duration { seconds: -9_223_372_036_854_776, nanos: 192_999_999 };
    assert_eq!(under.try_to_object(), Err(DecodeError::InvalidData));
    let under = Duration { seconds: i64::MIN, nanos: -1 };
    assert_eq!(under.normalized(), None);
    assert_eq!(under.try_to_object(), Err(DecodeError::InvalidData));
    assert_eq!(under.try_to_time_delta(), Err(DecodeError::InvalidData));
}

#[test]
fn duration_of_a_span_that_only_arithmetic_makes() {
    let doubled = chrono::TimeDelta::MAX * 2;
    let duration = Duration::from_time_delta(&doubled);
    assert_eq!(
        duration,
        Duration { seconds: 18_446_744_073_709_551, nanos: 614_000_000 }
    );
    assert!(!duration.is_canonical());
    assert_eq!(duration.try_to_time_delta(), Err(DecodeError::InvalidData));
    assert_eq!(Duration::try_from_time_delta(&doubled), None);
}

#[test]
fn duration_of_a_span_and_back() {
    for delta in [
        chrono::TimeDelta::zero(),
        chrono::TimeDelta::milliseconds(-500),
        chrono::TimeDelta::nanoseconds(-1),
        chrono::TimeDelta::nanoseconds(1),
        chrono::TimeDelta::seconds(-86_400),
        chrono::TimeDelta::MAX,
        chrono::TimeDelta::MIN,
    ] {
        let duration = Duration::try_from_time_delta(&delta).unwrap();
        assert_eq!(duration, Duration::from_time_delta(&delta));
        assert!(duration.is_canonical());
        assert_eq!(duration.try_to_time_delta(), Ok(delta));
    }
    assert_eq!(
        Duration::try_from_time_delta(&chrono::TimeDelta::milliseconds(-500)),
        Some(Duration { seconds: -1, nanos: 500_000_000 })
    );
    assert!(!Duration { seconds: 0, nanos: -1 }.is_canonical());
    assert!(!Duration { seconds: 0, nanos: 1_000_000_000 }.is_canonical());
    assert!(!Duration { seconds: 9_223_372_036_854_776, nanos: 0 }.is_canonical());
}

#[test]
fn duration_message_bytes() {
    assert_eq!(Duration { seconds: 0, nanos: 0 }.encode_to_vec(), Vec::<u8>::new());
    assert_eq!(Duration { seconds: 3, nanos: 0 }.encode_to_vec(), vec![0x08, 0x03]);
    assert_eq!(Duration { seconds: 0, nanos: 5 }.encode_to_vec(), vec![0x10, 0x05]);
    assert_eq!(
        Duration { seconds: -1, nanos: 500_000_000 }.encode_to_vec(),
        vec![
            0x08, 0xff, 0xff, 0xff, 0xff, 0xff, 0xff, 0xff, 0xff, 0xff, 0x01, 0x10, 0x80, 0xca,
            0xb5, 0xee, 0x01
        ]
    );
    let d = Duration { seconds: -1, nanos: 500_000_000 };
    assert_eq!(Duration::decode(&d.encode_to_vec()), Ok(d));
    assert_eq!(Duration::decode(&[]), Ok(Duration { seconds: 0, nanos: 0 }));
    assert_eq!(Duration::decode(&[0x08]), Err(DecodeError::InvalidData));
    assert_eq!(Duration::decode(&[0x0d, 0, 0, 0, 0]), Err(DecodeError::InvalidData));
}

#[test]
fn duration_is_extracted_from_a_duration_only() {
    let d = Duration { seconds: 4, nanos: 2 };
    assert_eq!(Duration::extract_bound(&Value::Duration(d)), Ok(d));
    assert_eq!(Duration::extract_bound(&Value::Int64(4)), Err(EncodeError::DowncastFailed));
    assert_eq!(Duration::extract_bound(&Value::Null), Err(EncodeError::DowncastFailed));
}

#[test]
fn timestamp_within_the_years_1_to_9999() {
    let first = Timestamp { seconds: -62_135_596_800, nanos: 0 };
    assert_eq!(first.try_to_object(), Ok(Value::Timestamp(first)));
    let last = Timestamp { seconds: 253_402_300_799, nanos: 999_999_999 };
    assert_eq!(last.try_to_object(), Ok(Value::Timestamp(last)));
    let epoch = Timestamp { seconds: 0, nanos: 0 };
    assert_eq!(epoch.try_to_object(), Ok(Value::Timestamp(epoch)));
    let some = Timestamp { seconds: 1_431_648_000, nanos: 123 };
    assert_eq!(some.try_to_object(), Ok(Value::Timestamp(some)));
}

#[test]
fn timestamp_in_year_0_is_out_of_bounds() {
    let t = Timestamp { seconds: -62_135_596_801, nanos: 0 };
    assert_eq!(
        t.try_to_object(),
        Err(DecodeError::TimestampOutOfBounds { seconds: -62_135_596_801, nanos: 0 })
    );
    let t = Timestamp { seconds: -62_167_219_200, nanos: 7 };
    assert_eq!(
        t.try_to_object(),
        Err(DecodeError::TimestampOutOfBounds { seconds: -62_167_219_200, nanos: 7 })
    );
}

#[test]
fn timestamp_in_year_10000_is_out_of_bounds() {
    let t = Timestamp { seconds: 253_402_300_800, nanos: 0 };
    assert_eq!(
        t.try_to_object(),
        Err(DecodeError::TimestampOutOfBounds { seconds: 253_402_300_800, nanos: 0 })
    );
}

#[test]
fn timestamp_beyond_the_calendar_is_out_of_bounds() {
    assert_eq!(
        Timestamp { seconds: i64::MAX, nanos: 0 }.try_to_object(),
        Err(DecodeError::TimestampOutOfBounds { seconds: i64::MAX, nanos: 0 })
    );
    assert_eq!(
        Timestamp { seconds: i64::MIN, nanos: 999_999_999 }.try_to_object(),
        Err(DecodeError::TimestampOutOfBounds { seconds: i64::MIN, nanos: 999_999_999 })
    );
    assert_eq!(
        Timestamp { seconds: 9_000_000_000_000_000, nanos: 1 }.try_to_object(),
        Err(DecodeError::TimestampOutOfBounds { seconds: 9_000_000_000_000_000, nanos: 1 })
    );
    assert!(!Timestamp { seconds: i64::MAX, nanos: 0 }.is_canonical());
}

#[test]
fn timestamp_that_is_no_instant_is_invalid() {
    assert_eq!(
        Timestamp { seconds: 0, nanos: -1 }.try_to_object(),
        Err(DecodeError::InvalidData)
    );
    assert_eq!(
        Timestamp { seconds: i64::MAX, nanos: -1 }.try_to_object(),
        Err(DecodeError::InvalidData)
    );
    assert_eq!(
        Timestamp { seconds: 0, nanos: 2_000_000_000 }.try_to_object(),
        Err(DecodeError::InvalidData)
    );
    assert_eq!(
        Timestamp { seconds: 0, nanos: 1_000_000_000 }.try_to_object(),
        Err(DecodeError::InvalidData)
    );
    assert_eq!(
        Timestamp { seconds: i64::MAX, nanos: 1_000_000_000 }.try_to_object(),
        Err(DecodeError::InvalidData)
    );
}

#[test]
fn timestamp_within_a_leap_second_is_an_instant() {
    let t = Timestamp { seconds: 59, nanos: 1_500_000_000 };
    assert_eq!(t.try_to_object(), Ok(Value::Timestamp(t)));
    assert!(t.is_canonical());
    assert!(Timestamp { seconds: 0, nanos: 0 }.is_canonical());
    assert!(!Timestamp { seconds: 0, nanos: -1 }.is_canonical());
    assert!(!Timestamp { seconds: 253_402_300_800, nanos: 0 }.is_canonical());
}

#[test]
fn timestamp_given_its_year() {
    let t = Timestamp { seconds: 12, nanos: 34 };
    assert_eq!(t.to_object_in_year(Some(1)), Ok(Value::Timestamp(t)));
    assert_eq!(t.to_object_in_year(Some(9999)), Ok(Value::Timestamp(t)));
    assert_eq!(
        t.to_object_in_year(Some(0)),
        Err(DecodeError::TimestampOutOfBounds { seconds: 12, nanos: 34 })
    );
    assert_eq!(
        t.to_object_in_year(Some(10_000)),
        Err(DecodeError::TimestampOutOfBounds { seconds: 12, nanos: 34 })
    );
    assert_eq!(
        t.to_object_in_year(Some(-4)),
        Err(DecodeError::TimestampOutOfBounds { seconds: 12, nanos: 34 })
    );
    assert_eq!(
        t.to_object_in_year(None),
        Err(DecodeError::TimestampOutOfBounds { seconds: 12, nanos: 34 })
    );
    assert_eq!(
        Timestamp { seconds: 12, nanos: -1 }.to_object_in_year(None),
        Err(DecodeError::InvalidData)
    );
    assert_eq!(
        Timestamp { seconds: 12, nanos: 1_000_000_000 }.to_object_in_year(None),
        Err(DecodeError::InvalidData)
    );
}

#[test]
fn timestamp_of_an_instant_in_utc() {
    assert_eq!(
        Timestamp::from_utc_parts(1_431_648_000, 999),
        Timestamp { seconds: 1_431_648_000, nanos: 999 }
    );
    assert_eq!(
        Timestamp::try_from_any(&HostDateTime::Aware { utc_seconds: -5, subsec_nanos: 17 }),
        Ok(Timestamp { seconds: -5, nanos: 17 })
    );
}

#[test]
fn timestamp_of_a_wall_clock_value() {
    let naive = chrono::NaiveDate::from_ymd_opt(2015, 5, 15)
        .unwrap()
        .and_hms_nano_opt(12, 30, 45, 678)
        .unwrap();
    let expected = naive.and_local_timezone(chrono::Local).single();
    let got = Timestamp::try_from_any(&HostDateTime::Naive(naive));
    match expected {
        Some(instant) => assert_eq!(
            got,
            Ok(Timestamp { seconds: instant.timestamp(), nanos: 678 })
        ),
        None => assert_eq!(got, Err(InteropError::OffsetNaiveDateTimeDoesNotMap(naive))),
    }
}

#[test]
fn timestamp_of_a_wall_clock_value_that_does_not_map() {
    let naive = chrono::NaiveDate::from_ymd_opt(2021, 3, 28)
        .unwrap()
        .and_hms_opt(2, 30, 0)
        .unwrap();
    assert_eq!(
        Timestamp::from_local_instant(naive, None),
        Err(InteropError::OffsetNaiveDateTimeDoesNotMap(naive))
    );
    assert_eq!(
        Timestamp::from_local_instant(naive, Some((1_616_898_600, 0))),
        Ok(Timestamp { seconds: 1_616_898_600, nanos: 0 })
    );
}

#[test]
fn timestamp_message_bytes() {
    let t = Timestamp { seconds: 1, nanos: 2 };
    assert_eq!(t.encode_to_vec(), vec![0x08, 0x01, 0x10, 0x02]);
    assert_eq!(Timestamp::decode(&[0x08, 0x01, 0x10, 0x02]), Ok(t));
    assert_eq!(Timestamp::decode(&[0x10, 0x02, 0x08, 0x01]), Ok(t));
    assert_eq!(
        Timestamp::decode(&[0x08, 0x09, 0x08, 0x01, 0x18, 0x05, 0x10, 0x02]),
        Ok(t)
    );
    assert_eq!(Timestamp::extract_bound(&Value::Timestamp(t)), Ok(t));
    assert_eq!(
        Timestamp::extract_bound(&Value::Duration(Duration { seconds: 1, nanos: 2 })),
        Err(EncodeError::DowncastFailed)
    );
}

#[test]
fn bool_value_present_and_false_is_empty_but_not_absent() {
    assert_eq!(BoolValue { value: false }.encode_to_vec(), Vec::<u8>::new());
    assert_eq!(BoolValue { value: true }.encode_to_vec(), vec![0x08, 0x01]);
    assert_eq!(BoolValue::decode(&[]), Ok(BoolValue { value: false }));
    assert_eq!(BoolValue::decode(&[0x08, 0x01]), Ok(BoolValue { value: true }));
    assert_eq!(BoolValue::decode(&[0x08, 0x02]), Ok(BoolValue { value: true }));
    assert_eq!(BoolValue::decode(&[0x08, 0x01, 0x08, 0x00]), Ok(BoolValue { value: false }));
    assert_eq!(BoolValue { value: false }.to_object(), Value::Bool(false));
    assert_ne!(BoolValue { value: false }.to_object(), Value::Null);
}

#[test]
fn wrapper_with_the_wrong_wire_type_is_invalid() {
    assert_eq!(BoolValue::decode(&[0x0a, 0x00]), Err(DecodeError::InvalidData));
    assert_eq!(StringValue::decode(&[0x08, 0x01]), Err(DecodeError::InvalidData));
    assert_eq!(FloatValue::decode(&[0x09, 0, 0, 0, 0, 0, 0, 0, 0]), Err(DecodeError::InvalidData));
    assert_eq!(DoubleValue::decode(&[0x0d, 0, 0, 0, 0]), Err(DecodeError::InvalidData));
}

#[test]
fn wrapper_passes_over_unknown_fields() {
    assert_eq!(
        Int32Value::decode(&[0x10, 0x07, 0x08, 0x05, 0x1a, 0x01, 0x00]),
        Ok(Int32Value { value: 5 })
    );
}

#[test]
fn wrappers_round_trip() {
    for value in [0i32, 1, -1, i32::MAX, i32::MIN] {
        let w = Int32Value { value };
        assert_eq!(Int32Value::decode(&w.encode_to_vec()), Ok(Int32Value { value }));
    }
    for value in [0i64, 1, -1, i64::MAX, i64::MIN] {
        let w = Int64Value { value };
        assert_eq!(Int64Value::decode(&w.encode_to_vec()), Ok(Int64Value { value }));
    }
    for value in [0u32, 1, u32::MAX] {
        let w = UInt32Value { value };
        assert_eq!(UInt32Value::decode(&w.encode_to_vec()), Ok(UInt32Value { value }));
    }
    for value in [0u64, 1, u64::MAX] {
        let w = UInt64Value { value };
        assert_eq!(UInt64Value::decode(&w.encode_to_vec()), Ok(UInt64Value { value }));
    }
    for value in [0.0f32, 1.5, -0.0, f32::MAX, f32::MIN_POSITIVE, f32::INFINITY] {
        let w = FloatValue { value: value.to_bits() };
        let back = FloatValue::decode(&w.encode_to_vec()).unwrap();
        assert_eq!(back.value, value.to_bits());
    }
    for value in [0.0f64, 1.5, -0.0, f64::MAX, f64::MIN_POSITIVE, f64::NEG_INFINITY] {
        let w = DoubleValue { value: value.to_bits() };
        let back = DoubleValue::decode(&w.encode_to_vec()).unwrap();
        assert_eq!(back.value, value.to_bits());
    }
    for value in ["", "a", "h\u{e9}llo \u{1f600}"] {
        let w = StringValue { value: value.to_string() };
        assert_eq!(
            StringValue::decode(&w.encode_to_vec()),
            Ok(StringValue { value: value.to_string() })
        );
    }
    for value in [vec![], vec![0u8], vec![0xff, 0x00, 0x80]] {
        let w = BytesValue { value: value.clone() };
        assert_eq!(BytesValue::decode(&w.encode_to_vec()), Ok(BytesValue { value }));
    }
}

#[test]
fn wrapper_bytes_are_exact() {
    assert_eq!(Int32Value { value: 150 }.encode_to_vec(), vec![0x08, 0x96, 0x01]);
    assert_eq!(
        Int32Value { value: -1 }.encode_to_vec(),
        vec![0x08, 0xff, 0xff, 0xff, 0xff, 0xff, 0xff, 0xff, 0xff, 0xff, 0x01]
    );
    assert_eq!(UInt64Value { value: 1 }.encode_to_vec(), vec![0x08, 0x01]);
    assert_eq!(
        FloatValue { value: 1.0f32.to_bits() }.encode_to_vec(),
        vec![0x0d, 0x00, 0x00, 0x80, 0x3f]
    );
    assert_eq!(
        DoubleValue { value: 1.0f64.to_bits() }.encode_to_vec(),
        vec![0x09, 0x00, 0x00, 0x00, 0x00, 0x00, 0x00, 0xf0, 0x3f]
    );
    assert_eq!(
        StringValue { value: "hi".to_string() }.encode_to_vec(),
        vec![0x0a, 0x02, b'h', b'i']
    );
    assert_eq!(BytesValue { value: vec![9] }.encode_to_vec(), vec![0x0a, 0x01, 0x09]);
}

#[test]
fn wrappers_are_extracted_from_their_own_kind_only() {
    assert_eq!(BoolValue::extract_bound(&Value::Bool(true)), Ok(BoolValue { value: true }));
    assert_eq!(BoolValue::extract_bound(&Value::Int32(1)), Err(EncodeError::DowncastFailed));
    assert_eq!(Int32Value::extract_bound(&Value::Int32(-3)), Ok(Int32Value { value: -3 }));
    assert_eq!(Int32Value::extract_bound(&Value::Int64(-3)), Err(EncodeError::DowncastFailed));
    assert_eq!(Int64Value::extract_bound(&Value::Int64(-3)), Ok(Int64Value { value: -3 }));
    assert_eq!(UInt32Value::extract_bound(&Value::UInt32(3)), Ok(UInt32Value { value: 3 }));
    assert_eq!(UInt64Value::extract_bound(&Value::UInt64(3)), Ok(UInt64Value { value: 3 }));
    assert_eq!(UInt64Value::extract_bound(&Value::Null), Err(EncodeError::DowncastFailed));
    assert_eq!(FloatValue::extract_bound(&Value::Float(7)), Ok(FloatValue { value: 7 }));
    assert_eq!(FloatValue::extract_bound(&Value::Double(7)), Err(EncodeError::DowncastFailed));
    assert_eq!(DoubleValue::extract_bound(&Value::Double(7)), Ok(DoubleValue { value: 7 }));
    assert_eq!(
        StringValue::extract_bound(&Value::Str("x".to_string())),
        Ok(StringValue { value: "x".to_string() })
    );
    assert_eq!(
        StringValue::extract_bound(&Value::Bytes(vec![b'x'])),
        Err(EncodeError::DowncastFailed)
    );
    assert_eq!(
        BytesValue::extract_bound(&Value::Bytes(vec![1, 2])),
        Ok(BytesValue { value: vec![1, 2] })
    );
    assert_eq!(StringValue { value: "x".to_string() }.to_object(), Value::Str("x".to_string()));
    assert_eq!(BytesValue { value: vec![1] }.to_object(), Value::Bytes(vec![1]));
    assert_eq!(Int64Value { value: 1 }.to_object(), Value::Int64(1));
    assert_eq!(UInt32Value { value: 1 }.to_object(), Value::UInt32(1));
    assert_eq!(UInt64Value { value: 1 }.to_object(), Value::UInt64(1));
    assert_eq!(Int32Value { value: 1 }.to_object(), Value::Int32(1));
    assert_eq!(FloatValue { value: 1 }.to_object(), Value::Float(1));
    assert_eq!(DoubleValue { value: 1 }.to_object(), Value::Double(1));
}
