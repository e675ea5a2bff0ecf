use betterproto_rust_codec::decode::DecodeError;
use betterproto_rust_codec::wire::{
    append_bytes, decode_key, decode_varint, encode_key, encode_varint, read_payload, read_record,
    skip_group, write_payload, write_record, WirePayload, WireRecord, WireType,
    MAX_FIELD_NUMBER, MIN_FIELD_NUMBER,
};

fn varint_of(value: u64) -> Vec<u8> {
    let mut buf = Vec::new();
    encode_varint(value, &mut buf);
    buf
}

#[test]
fn varint_small_values_take_one_byte() {
    assert_eq!(varint_of(0), vec![0x00]);
    assert_eq!(varint_of(1), vec![0x01]);
    assert_eq!(varint_of(127), vec![0x7f]);
}

#[test]
fn varint_larger_values_continue() {
    assert_eq!(varint_of(128), vec![0x80, 0x01]);
    assert_eq!(varint_of(150), vec![0x96, 0x01]);
    assert_eq!(varint_of(300), vec![0xac, 0x02]);
    assert_eq!(varint_of(16_384), vec![0x80, 0x80, 0x01]);
}

#[test]
fn varint_maximum_takes_ten_bytes() {
    assert_eq!(
        varint_of(u64::MAX),
        vec![0xff, 0xff, 0xff, 0xff, 0xff, 0xff, 0xff, 0xff, 0xff, 0x01]
    );
}

#[test]
fn varint_is_appended_to_what_is_there() {
    let mut buf = vec![0xaa, 0xbb];
    encode_varint(300, &mut buf);
    assert_eq!(buf, vec![0xaa, 0xbb, 0xac, 0x02]);
}

#[test]
fn varint_round_trips() {
    let values = [
        0u64,
        1,
        127,
        128,
        255,
        256,
        16_383,
        16_384,
        u32::MAX as u64,
        (u32::MAX as u64) + 1,
        1u64 << 56,
        (1u64 << 63) - 1,
        1u64 << 63,
        u64::MAX,
    ];
    for value in values {
        let bytes = varint_of(value);
        assert_eq!(decode_varint(&bytes), Ok((value, bytes.len())));
    }
}

#[test]
fn varint_decoding_stops_at_its_last_byte() {
    assert_eq!(decode_varint(&[0x96, 0x01, 0xff, 0xff]), Ok((150, 2)));
    assert_eq!(decode_varint(&[0x00, 0x01]), Ok((0, 1)));
}

#[test]
fn varint_accepts_padded_encodings() {
    assert_eq!(decode_varint(&[0x80, 0x00]), Ok((0, 2)));
    assert_eq!(
        decode_varint(&[0x80, 0x80, 0x80, 0x80, 0x80, 0x80, 0x80, 0x80, 0x80, 0x00]),
        Ok((0, 10))
    );
}

#[test]
fn varint_of_nothing_is_invalid() {
    assert_eq!(decode_varint(&[]), Err(DecodeError::InvalidData));
}

#[test]
fn varint_truncated_is_invalid() {
    assert_eq!(decode_varint(&[0x80]), Err(DecodeError::InvalidData));
    assert_eq!(decode_varint(&[0xff, 0xff, 0xff]), Err(DecodeError::InvalidData));
}

#[test]
fn varint_of_more_than_ten_bytes_is_invalid() {
    let bytes = [0xff, 0xff, 0xff, 0xff, 0xff, 0xff, 0xff, 0xff, 0xff, 0xff, 0x01];
    assert_eq!(decode_varint(&bytes), Err(DecodeError::InvalidData));
}

#[test]
fn varint_that_overflows_64_bits_is_invalid() {
    let bytes = [0xff, 0xff, 0xff, 0xff, 0xff, 0xff, 0xff, 0xff, 0xff, 0x02];
    assert_eq!(decode_varint(&bytes), Err(DecodeError::InvalidData));
    let bytes = [0x80, 0x80, 0x80, 0x80, 0x80, 0x80, 0x80, 0x80, 0x80, 0x7f];
    assert_eq!(decode_varint(&bytes), Err(DecodeError::InvalidData));
}

#[test]
fn key_holds_number_and_wire_type() {
    let mut buf = Vec::new();
    encode_key(1, WireType::Varint, &mut buf);
    encode_key(2, WireType::LengthDelimited, &mut buf);
    encode_key(3, WireType::SixtyFourBit, &mut buf);
    encode_key(4, WireType::ThirtyTwoBit, &mut buf);
    encode_key(16, WireType::Varint, &mut buf);
    assert_eq!(buf, vec![0x08, 0x12, 0x19, 0x25, 0x80, 0x01]);
}

#[test]
fn key_of_the_largest_number() {
    let mut buf = Vec::new();
    encode_key(MAX_FIELD_NUMBER, WireType::ThirtyTwoBit, &mut buf);
    assert_eq!(buf, vec![0xfd, 0xff, 0xff, 0xff, 0x0f]);
    assert_eq!(decode_key(&buf), Ok((MAX_FIELD_NUMBER, WireType::ThirtyTwoBit, 5)));
    assert_eq!(MAX_FIELD_NUMBER, (1 << 29) - 1);
    assert_eq!(MIN_FIELD_NUMBER, 1);
}

#[test]
fn key_round_trips_for_every_wire_type() {
    let wire_types = [
        WireType::Varint,
        WireType::SixtyFourBit,
        WireType::LengthDelimited,
        WireType::StartGroup,
        WireType::EndGroup,
        WireType::ThirtyTwoBit,
    ];
    for number in [1u32, 2, 15, 16, 2047, 2048, MAX_FIELD_NUMBER] {
        for wire_type in wire_types {
            let mut buf = Vec::new();
            encode_key(number, wire_type, &mut buf);
            assert_eq!(decode_key(&buf), Ok((number, wire_type, buf.len())));
        }
    }
}

#[test]
fn key_with_unknown_wire_type_is_invalid() {
    assert_eq!(decode_key(&[0x0e]), Err(DecodeError::InvalidData));
    assert_eq!(decode_key(&[0x0f]), Err(DecodeError::InvalidData));
}

#[test]
fn key_with_number_zero_is_invalid() {
    assert_eq!(decode_key(&[0x00]), Err(DecodeError::InvalidData));
    assert_eq!(decode_key(&[0x02]), Err(DecodeError::InvalidData));
}

#[test]
fn key_beyond_32_bits_is_invalid() {
    assert_eq!(
        decode_key(&[0x80, 0x80, 0x80, 0x80, 0x10]),
        Err(DecodeError::InvalidData)
    );
}

#[test]
fn key_of_nothing_is_invalid() {
    assert_eq!(decode_key(&[]), Err(DecodeError::InvalidData));
}

#[test]
fn append_bytes_keeps_what_is_there() {
    let mut buf = vec![1u8, 2];
    append_bytes(&mut buf, &[3, 4, 5]);
    assert_eq!(buf, vec![1, 2, 3, 4, 5]);
}

#[test]
fn payloads_are_written_as_their_wire_type_asks() {
    let mut buf = Vec::new();
    write_payload(&WirePayload::Varint(300), &mut buf);
    assert_eq!(buf, vec![0xac, 0x02]);
    let mut buf = Vec::new();
    write_payload(&WirePayload::Fixed32(0x0403_0201), &mut buf);
    assert_eq!(buf, vec![0x01, 0x02, 0x03, 0x04]);
    let mut buf = Vec::new();
    write_payload(&WirePayload::Fixed64(0x0807_0605_0403_0201), &mut buf);
    assert_eq!(buf, vec![0x01, 0x02, 0x03, 0x04, 0x05, 0x06, 0x07, 0x08]);
    let mut buf = Vec::new();
    write_payload(&WirePayload::Delimited(b"abc"), &mut buf);
    assert_eq!(buf, vec![0x03, b'a', b'b', b'c']);
}

#[test]
fn record_is_key_then_payload() {
    let mut buf = Vec::new();
    write_record(&WireRecord { number: 1, payload: WirePayload::Varint(150) }, &mut buf);
    assert_eq!(buf, vec![0x08, 0x96, 0x01]);
    let mut buf = Vec::new();
    write_record(
        &WireRecord { number: 2, payload: WirePayload::Delimited(b"testing") },
        &mut buf,
    );
    assert_eq!(buf, vec![0x12, 0x07, 0x74, 0x65, 0x73, 0x74, 0x69, 0x6e, 0x67]);
}

#[test]
fn record_round_trips_for_every_payload() {
    let long = vec![7u8; 300];
    let payloads = [
        WirePayload::Varint(0),
        WirePayload::Varint(u64::MAX),
        WirePayload::Fixed32(0),
        WirePayload::Fixed32(u32::MAX),
        WirePayload::Fixed64(0),
        WirePayload::Fixed64(u64::MAX),
        WirePayload::Delimited(&[]),
        WirePayload::Delimited(&long),
    ];
    for payload in payloads {
        let mut buf = Vec::new();
        write_record(&WireRecord { number: 77, payload }, &mut buf);
        let written = buf.len();
        buf.extend_from_slice(&[0xde, 0xad]);
        let (record, n) = read_record(&buf).unwrap();
        assert_eq!(n, written);
        assert_eq!(record.number, 77);
        match (record.payload, payload) {
            (WirePayload::Varint(a), WirePayload::Varint(b)) => assert_eq!(a, b),
            (WirePayload::Fixed32(a), WirePayload::Fixed32(b)) => assert_eq!(a, b),
            (WirePayload::Fixed64(a), WirePayload::Fixed64(b)) => assert_eq!(a, b),
            (WirePayload::Delimited(a), WirePayload::Delimited(b)) => assert_eq!(a, b),
            _ => panic!("the payload came back under another wire type"),
        }
    }
}

#[test]
fn record_with_too_few_bytes_is_invalid() {
    assert!(matches!(read_record(&[0x08]), Err(DecodeError::InvalidData)));
    assert!(matches!(read_record(&[0x0d, 1, 2, 3]), Err(DecodeError::InvalidData)));
    assert!(matches!(
        read_record(&[0x09, 1, 2, 3, 4, 5, 6, 7]),
        Err(DecodeError::InvalidData)
    ));
    assert!(matches!(read_record(&[0x12, 0x03, b'a', b'b']), Err(DecodeError::InvalidData)));
    assert!(matches!(read_record(&[]), Err(DecodeError::InvalidData)));
}

#[test]
fn group_is_read_as_one_record() {
    let (record, n) = read_record(&[0x0b, 0x0c]).unwrap();
    assert_eq!((record.number, n), (1, 2));
    assert!(matches!(record.payload, WirePayload::Group(b) if b == [0x0c]));
    let bytes = [0x0b, 0x08, 0x05, 0x13, 0x1d, 1, 2, 3, 4, 0x14, 0x12, 0x01, 0xff, 0x0c, 0xaa];
    let (record, n) = read_record(&bytes).unwrap();
    assert_eq!((record.number, n), (1, 14));
    assert!(matches!(record.payload, WirePayload::Group(b) if b == &bytes[1..14]));
    assert_eq!(skip_group(&[0x0c], 1), Ok(1));
    assert_eq!(skip_group(&[0x08, 0x05, 0x0c, 0xff], 1), Ok(3));
    assert_eq!(skip_group(&[0x13, 0x0b, 0x0c, 0x14, 0x0c], 1), Ok(5));
}

#[test]
fn group_that_is_not_closed_is_invalid() {
    assert!(matches!(read_record(&[0x0b]), Err(DecodeError::InvalidData)));
    assert!(matches!(read_record(&[0x0b, 0x08, 0x05]), Err(DecodeError::InvalidData)));
    assert!(matches!(read_record(&[0x0b, 0x08]), Err(DecodeError::InvalidData)));
    assert!(matches!(read_record(&[0x0b, 0x14]), Err(DecodeError::InvalidData)));
    assert!(matches!(read_record(&[0x0b, 0x13, 0x0c]), Err(DecodeError::InvalidData)));
    assert!(matches!(read_record(&[0x0b, 0x13, 0x0c, 0x14]), Err(DecodeError::InvalidData)));
    assert!(matches!(read_record(&[0x0c]), Err(DecodeError::InvalidData)));
    assert_eq!(skip_group(&[], 1), Err(DecodeError::InvalidData));
    assert_eq!(skip_group(&[0x14], 1), Err(DecodeError::InvalidData));
    assert!(matches!(
        read_payload(WireType::StartGroup, &[0x0c]),
        Err(DecodeError::InvalidData)
    ));
}

#[test]
fn group_is_written_as_it_stands() {
    let mut buf = Vec::new();
    write_record(&WireRecord { number: 1, payload: WirePayload::Group(&[0x08, 0x05, 0x0c]) }, &mut buf);
    assert_eq!(buf, vec![0x0b, 0x08, 0x05, 0x0c]);
    let (record, n) = read_record(&buf).unwrap();
    assert_eq!((record.number, n), (1, 4));
}

#[test]
fn payload_length_must_lie_within_the_bytes() {
    let bytes = [0xff, 0xff, 0xff, 0xff, 0xff, 0xff, 0xff, 0xff, 0xff, 0x01, 0x00];
    assert!(matches!(
        read_payload(WireType::LengthDelimited, &bytes),
        Err(DecodeError::InvalidData)
    ));
    let (payload, n) = read_payload(WireType::LengthDelimited, &[0x02, 9, 8, 7]).unwrap();
    assert_eq!(n, 3);
    assert!(matches!(payload, WirePayload::Delimited(b) if b == [9, 8]));
}
