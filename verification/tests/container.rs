use otap_pipeline::container::{decode, Container, DecodeError};
use otap_pipeline::payload::PayloadType;
use prost::encoding::WireType;

fn payload_message(schema_id: &str, kind: i32, record: &[u8]) -> Vec<u8> {
    let mut buf = Vec::new();
    prost::encoding::string::encode(1, &schema_id.to_string(), &mut buf);
    prost::encoding::int32::encode(2, &kind, &mut buf);
    prost::encoding::bytes::encode(3, &record.to_vec(), &mut buf);
    buf
}

fn push_message(tag: u32, message: &[u8], buf: &mut Vec<u8>) {
    prost::encoding::encode_key(tag, WireType::LengthDelimited, buf);
    prost::encoding::encode_varint(message.len() as u64, buf);
    buf.extend_from_slice(message);
}

fn container_message(batch_id: i64, payloads: &[Vec<u8>]) -> Vec<u8> {
    let mut buf = Vec::new();
    prost::encoding::int64::encode(1, &batch_id, &mut buf);
    for p in payloads {
        push_message(2, p, &mut buf);
    }
    prost::encoding::bytes::encode(3, &vec![1u8, 2, 3], &mut buf);
    buf
}

fn summary(c: &Container) -> (i64, Vec<(String, PayloadType, Vec<u8>)>) {
    (
        c.batch_id,
        c.payloads.iter().map(|p| (p.schema_id.clone(), p.payload_type, p.bytes.clone())).collect(),
    )
}

#[test]
fn decode_reads_a_container() {
    let bytes = container_message(
        7,
        &[payload_message("s1", 30, b"logs stream"), payload_message("s2", 31, b"attrs stream")],
    );
    let c = decode(&bytes).unwrap();
    assert_eq!(
        summary(&c),
        (
            7,
            vec![
                ("s1".to_string(), PayloadType::Logs, b"logs stream".to_vec()),
                ("s2".to_string(), PayloadType::LogAttrs, b"attrs stream".to_vec()),
            ]
        )
    );
}

#[test]
fn decode_of_no_bytes_is_the_empty_container() {
    let c = decode(&[]).unwrap();
    assert_eq!(summary(&c), (0, vec![]));
}

#[test]
fn decode_of_an_empty_payload_message_has_the_defaults() {
    let mut bytes = Vec::new();
    push_message(2, &[], &mut bytes);
    let c = decode(&bytes).unwrap();
    assert_eq!(summary(&c), (0, vec![(String::new(), PayloadType::Unknown, vec![])]));
}

#[test]
fn decode_reads_a_negative_batch_id() {
    let c = decode(&container_message(-2, &[])).unwrap();
    assert_eq!(c.batch_id, -2);
    let c = decode(&container_message(i64::MIN, &[])).unwrap();
    assert_eq!(c.batch_id, i64::MIN);
    let c = decode(&container_message(i64::MAX, &[])).unwrap();
    assert_eq!(c.batch_id, i64::MAX);
}

#[test]
fn decode_keeps_the_last_value_of_a_field() {
    let mut bytes = Vec::new();
    prost::encoding::int64::encode(1, &5, &mut bytes);
    prost::encoding::int64::encode(1, &9, &mut bytes);
    let mut p = Vec::new();
    prost::encoding::string::encode(1, &"first".to_string(), &mut p);
    prost::encoding::string::encode(1, &"second".to_string(), &mut p);
    prost::encoding::int32::encode(2, &30, &mut p);
    prost::encoding::int32::encode(2, &40, &mut p);
    prost::encoding::bytes::encode(3, &b"a".to_vec(), &mut p);
    prost::encoding::bytes::encode(3, &b"bc".to_vec(), &mut p);
    push_message(2, &p, &mut bytes);
    let c = decode(&bytes).unwrap();
    assert_eq!(summary(&c), (9, vec![("second".to_string(), PayloadType::Spans, b"bc".to_vec())]));
}

#[test]
fn decode_passes_over_other_fields() {
    let mut bytes = Vec::new();
    prost::encoding::int64::encode(9, &5, &mut bytes);
    prost::encoding::string::encode(10, &"x".to_string(), &mut bytes);
    prost::encoding::encode_key(11, WireType::SixtyFourBit, &mut bytes);
    bytes.extend_from_slice(&[0; 8]);
    prost::encoding::encode_key(12, WireType::ThirtyTwoBit, &mut bytes);
    bytes.extend_from_slice(&[0; 4]);
    let mut p = payload_message("s", 1, b"r");
    prost::encoding::int64::encode(4, &5, &mut p);
    push_message(2, &p, &mut bytes);
    let c = decode(&bytes).unwrap();
    assert_eq!(summary(&c), (0, vec![("s".to_string(), PayloadType::ResourceAttrs, b"r".to_vec())]));
}

#[test]
fn decode_does_not_look_into_the_streams() {
    let record: Vec<u8> = (0..=255u8).collect();
    let bytes = container_message(1, &[payload_message("s", 30, &record)]);
    let c = decode(&bytes).unwrap();
    assert_eq!(c.payloads[0].bytes, record);
}

#[test]
fn decode_rejects_a_truncated_container() {
    let bytes = container_message(7, &[payload_message("s1", 30, b"logs stream")]);
    for cut in 1..bytes.len() {
        // Every proper prefix that ends inside a field is malformed.
        let r = decode(&bytes[..cut]);
        if cut == 2 || cut == bytes.len() - 5 {
            // A prefix that ends between two fields is a container.
            assert!(r.is_ok(), "cut {}", cut);
        } else {
            assert_eq!(r.err(), Some(DecodeError::Malformed), "cut {}", cut);
        }
    }
}

#[test]
fn decode_rejects_an_unknown_kind() {
    for kind in [3, 9, 26, 29, 32, 46, 1000, -1] {
        let bytes = container_message(7, &[payload_message("s1", kind, b"x")]);
        assert_eq!(decode(&bytes).err(), Some(DecodeError::Malformed), "kind {}", kind);
    }
}

#[test]
fn decode_rejects_a_wrong_wire_type() {
    // The batch identifier as bytes.
    let mut bytes = Vec::new();
    prost::encoding::bytes::encode(1, &b"x".to_vec(), &mut bytes);
    assert_eq!(decode(&bytes).err(), Some(DecodeError::Malformed));
    // A payload as an integer.
    let mut bytes = Vec::new();
    prost::encoding::int64::encode(2, &1, &mut bytes);
    assert_eq!(decode(&bytes).err(), Some(DecodeError::Malformed));
    // The headers as an integer.
    let mut bytes = Vec::new();
    prost::encoding::int64::encode(3, &1, &mut bytes);
    assert_eq!(decode(&bytes).err(), Some(DecodeError::Malformed));
    // The schema identifier as an integer.
    let mut p = Vec::new();
    prost::encoding::int64::encode(1, &1, &mut p);
    let mut bytes = Vec::new();
    push_message(2, &p, &mut bytes);
    assert_eq!(decode(&bytes).err(), Some(DecodeError::Malformed));
    // The kind as bytes.
    let mut p = Vec::new();
    prost::encoding::bytes::encode(2, &b"x".to_vec(), &mut p);
    let mut bytes = Vec::new();
    push_message(2, &p, &mut bytes);
    assert_eq!(decode(&bytes).err(), Some(DecodeError::Malformed));
    // The stream as an integer.
    let mut p = Vec::new();
    prost::encoding::int64::encode(3, &1, &mut p);
    let mut bytes = Vec::new();
    push_message(2, &p, &mut bytes);
    assert_eq!(decode(&bytes).err(), Some(DecodeError::Malformed));
}

#[test]
fn decode_rejects_a_schema_id_that_is_not_utf8() {
    let mut p = Vec::new();
    prost::encoding::bytes::encode(1, &vec![0xffu8, 0xfe], &mut p);
    let mut bytes = Vec::new();
    push_message(2, &p, &mut bytes);
    assert_eq!(decode(&bytes).err(), Some(DecodeError::Malformed));
}

#[test]
fn decode_reads_a_schema_id_beyond_ascii() {
    let bytes = container_message(1, &[payload_message("sch\u{e9}ma \u{1f600}", 30, b"")]);
    let c = decode(&bytes).unwrap();
    assert_eq!(c.payloads[0].schema_id, "sch\u{e9}ma \u{1f600}");
}

#[test]
fn decode_rejects_a_bad_integer() {
    // An integer of eleven bytes.
    let mut bytes = vec![0x08];
    bytes.extend_from_slice(&[0x80; 10]);
    bytes.push(0);
    assert_eq!(decode(&bytes).err(), Some(DecodeError::Malformed));
    // A length that runs over the end.
    assert_eq!(decode(&[0x12, 0x05, 1, 2]).err(), Some(DecodeError::Malformed));
    // A group.
    assert_eq!(decode(&[0x2b, 0x2c]).err(), Some(DecodeError::Malformed));
    // Field number 0.
    assert_eq!(decode(&[0x00, 0x00]).err(), Some(DecodeError::Malformed));
}

#[test]
fn decode_takes_the_low_bits_of_the_kind() {
    // 30 + 2^32 reads as 30.
    let mut p = Vec::new();
    prost::encoding::uint64::encode(2, &(30 + (1u64 << 32)), &mut p);
    let mut bytes = Vec::new();
    push_message(2, &p, &mut bytes);
    let c = decode(&bytes).unwrap();
    assert_eq!(c.payloads[0].payload_type, PayloadType::Logs);
}
