//! The decoder of the library against the decoder of `prost`, on messages
//! that are written with the encoder of `prost`.

use otap_pipeline::container::decode;
use otap_pipeline::payload::PayloadType;
use otap_pipeline::wire::read_varint;
use prost::bytes::{Buf, BufMut};
use prost::encoding::{DecodeContext, WireType};
use prost::{DecodeError, Message};

#[derive(Clone, Debug, Default, PartialEq)]
struct WirePayload {
    schema_id: String,
    kind: i32,
    record: Vec<u8>,
}

#[derive(Clone, Debug, Default, PartialEq)]
struct WireBatch {
    batch_id: i64,
    payloads: Vec<WirePayload>,
    headers: Vec<u8>,
}

impl Message for WirePayload {
    fn encode_raw(&self, buf: &mut impl BufMut) {
        prost::encoding::string::encode(1, &self.schema_id, buf);
        prost::encoding::int32::encode(2, &self.kind, buf);
        prost::encoding::bytes::encode(3, &self.record, buf);
    }

    fn merge_field(
        &mut self,
        tag: u32,
        wire_type: WireType,
        buf: &mut impl Buf,
        ctx: DecodeContext,
    ) -> Result<(), DecodeError> {
        match tag {
            1 => prost::encoding::string::merge(wire_type, &mut self.schema_id, buf, ctx),
            2 => prost::encoding::int32::merge(wire_type, &mut self.kind, buf, ctx),
            3 => prost::encoding::bytes::merge(wire_type, &mut self.record, buf, ctx),
            _ => prost::encoding::skip_field(wire_type, tag, buf, ctx),
        }
    }

    fn encoded_len(&self) -> usize {
        prost::encoding::string::encoded_len(1, &self.schema_id)
            + prost::encoding::int32::encoded_len(2, &self.kind)
            + prost::encoding::bytes::encoded_len(3, &self.record)
    }

    fn clear(&mut self) {
        *self = WirePayload::default();
    }
}

impl Message for WireBatch {
    fn encode_raw(&self, buf: &mut impl BufMut) {
        prost::encoding::int64::encode(1, &self.batch_id, buf);
        prost::encoding::message::encode_repeated(2, &self.payloads, buf);
        prost::encoding::bytes::encode(3, &self.headers, buf);
    }

    fn merge_field(
        &mut self,
        tag: u32,
        wire_type: WireType,
        buf: &mut impl Buf,
        ctx: DecodeContext,
    ) -> Result<(), DecodeError> {
        match tag {
            1 => prost::encoding::int64::merge(wire_type, &mut self.batch_id, buf, ctx),
            2 => prost::encoding::message::merge_repeated(wire_type, &mut self.payloads, buf, ctx),
            3 => prost::encoding::bytes::merge(wire_type, &mut self.headers, buf, ctx),
            _ => prost::encoding::skip_field(wire_type, tag, buf, ctx),
        }
    }

    fn encoded_len(&self) -> usize {
        prost::encoding::int64::encoded_len(1, &self.batch_id)
            + prost::encoding::message::encoded_len_repeated(2, &self.payloads)
            + prost::encoding::bytes::encoded_len(3, &self.headers)
    }

    fn clear(&mut self) {
        *self = WireBatch::default();
    }
}

/// What the other decoder makes of the bytes, with the kinds looked up.
fn expected(bytes: &[u8]) -> Option<(i64, Vec<(String, PayloadType, Vec<u8>)>)> {
    let batch = WireBatch::decode(bytes).ok()?;
    let mut payloads = Vec::new();
    for p in batch.payloads {
        payloads.push((p.schema_id, PayloadType::from_code(p.kind)?, p.record));
    }
    Some((batch.batch_id, payloads))
}

fn actual(bytes: &[u8]) -> Option<(i64, Vec<(String, PayloadType, Vec<u8>)>)> {
    let c = decode(bytes).ok()?;
    Some((c.batch_id, c.payloads.into_iter().map(|p| (p.schema_id, p.payload_type, p.bytes)).collect()))
}

struct Random(u64);

impl Random {
    fn next(&mut self) -> u64 {
        self.0 = self.0.wrapping_mul(6364136223846793005).wrapping_add(1442695040888963407);
        self.0 >> 33
    }

    fn below(&mut self, n: u64) -> u64 {
        self.next() % n
    }

    fn bytes(&mut self, max: u64) -> Vec<u8> {
        let len = self.below(max + 1);
        (0..len).map(|_| self.next() as u8).collect()
    }

    fn text(&mut self) -> String {
        let len = self.below(6);
        (0..len).map(|_| ['a', 'Z', '0', '\u{e9}', '\u{4e2d}', '\u{1f600}'][self.below(6) as usize]).collect()
    }
}

/// One field with a wire type that is none of the group types: a field of
/// the message, a field with the wrong wire type, or a field to pass over.
fn push_field(random: &mut Random, tags: &[u32], nested: bool, buf: &mut Vec<u8>) {
    let tag = if random.below(4) == 0 {
        1 + random.below(40) as u32
    } else {
        tags[random.below(tags.len() as u64) as usize]
    };
    match random.below(8) {
        0 => prost::encoding::uint64::encode(tag, &random.next(), buf),
        1 => prost::encoding::int64::encode(tag, &-(random.below(1000) as i64), buf),
        2 => prost::encoding::int32::encode(tag, &(random.below(50) as i32), buf),
        3 => prost::encoding::string::encode(tag, &random.text(), buf),
        4 => prost::encoding::bytes::encode(tag, &random.bytes(12), buf),
        5 => {
            prost::encoding::encode_key(tag, WireType::SixtyFourBit, buf);
            buf.extend_from_slice(&random.next().to_le_bytes());
        }
        6 => {
            prost::encoding::encode_key(tag, WireType::ThirtyTwoBit, buf);
            buf.extend_from_slice(&(random.next() as u32).to_le_bytes());
        }
        _ => {
            if nested {
                prost::encoding::bytes::encode(tag, &random.bytes(12), buf);
            } else {
                let mut inner = Vec::new();
                for _ in 0..random.below(5) {
                    push_field(random, &[1, 2, 3], true, &mut inner);
                }
                prost::encoding::bytes::encode(2, &inner, buf);
            }
        }
    }
}

#[test]
fn decode_agrees_on_well_formed_batches() {
    let mut random = Random(7);
    for _ in 0..300 {
        let batch = WireBatch {
            batch_id: random.next() as i64 - (1 << 30),
            payloads: (0..random.below(4))
                .map(|_| WirePayload {
                    schema_id: random.text(),
                    kind: [0, 1, 2, 10, 25, 30, 31, 40, 45][random.below(9) as usize],
                    record: random.bytes(40),
                })
                .collect(),
            headers: random.bytes(8),
        };
        let bytes = batch.encode_to_vec();
        let want = expected(&bytes);
        assert!(want.is_some());
        assert_eq!(actual(&bytes), want);
    }
}

#[test]
fn decode_agrees_on_arbitrary_fields() {
    let mut random = Random(11);
    let mut accepted = 0;
    let mut rejected = 0;
    for _ in 0..3000 {
        let mut bytes = Vec::new();
        for _ in 0..random.below(6) {
            push_field(&mut random, &[1, 2, 3], false, &mut bytes);
        }
        let want = expected(&bytes);
        assert_eq!(actual(&bytes), want, "bytes {:?}", bytes);
        if want.is_some() {
            accepted += 1;
        } else {
            rejected += 1;
        }
    }
    assert!(accepted > 100);
    assert!(rejected > 100);
}

#[test]
fn decode_agrees_on_truncated_batches() {
    let mut random = Random(13);
    for _ in 0..300 {
        let mut bytes = Vec::new();
        for _ in 0..1 + random.below(4) {
            push_field(&mut random, &[1, 2, 3], false, &mut bytes);
        }
        for cut in 0..bytes.len() {
            assert_eq!(actual(&bytes[..cut]), expected(&bytes[..cut]), "bytes {:?}", &bytes[..cut]);
        }
    }
}

fn other_varint(bytes: &[u8]) -> Option<(u64, usize)> {
    let mut rest = bytes;
    let value = prost::encoding::decode_varint(&mut rest).ok()?;
    Some((value, bytes.len() - rest.len()))
}

#[test]
fn read_varint_agrees_on_short_inputs() {
    for a in 0..=255u8 {
        assert_eq!(read_varint(&[a], 0, 1), other_varint(&[a]));
        for b in 0..=255u8 {
            assert_eq!(read_varint(&[a, b], 0, 2), other_varint(&[a, b]));
        }
    }
}

#[test]
fn read_varint_agrees_on_long_inputs() {
    let mut random = Random(17);
    for _ in 0..20000 {
        let len = random.below(13) as usize;
        let mut bytes: Vec<u8> = (0..len).map(|_| random.next() as u8 | 0x80).collect();
        // End the integer somewhere, or nowhere.
        if len > 0 && random.below(5) != 0 {
            let at = random.below(len as u64) as usize;
            bytes[at] &= 0x7f;
        }
        if len >= 10 && random.below(2) == 0 {
            bytes[9] = random.below(4) as u8;
        }
        assert_eq!(read_varint(&bytes, 0, bytes.len()), other_varint(&bytes), "bytes {:?}", bytes);
    }
}
