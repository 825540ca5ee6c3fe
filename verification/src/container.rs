//! The container: a batch identifier and the payloads of the batch, and the
//! decoder that reads one from its wire encoding.

use crate::payload::PayloadType;
use crate::wire::{
    fields_view, read_fields, spec_fields, WireFieldSpec, WireValue, WireValueSpec,
};
use vstd::prelude::*;
use vstd::slice::{slice_subrange, slice_to_vec};
use vstd::utf8::{decode_utf8, valid_utf8};

verus! {

/// One embedded columnar stream with the kind of table that it holds.
#[derive(Debug)]
pub struct Payload {
    pub schema_id: String,
    pub payload_type: PayloadType,
    pub bytes: Vec<u8>,
}

/// What a payload holds.
pub struct PayloadSpec {
    pub schema_id: Seq<char>,
    pub payload_type: PayloadType,
    pub bytes: Seq<u8>,
}

impl View for Payload {
    type V = PayloadSpec;

    open spec fn view(&self) -> PayloadSpec {
        PayloadSpec {
            schema_id: self.schema_id@,
            payload_type: self.payload_type,
            bytes: self.bytes@,
        }
    }
}

/// A batch: its identifier and its payloads, in the order of the wire.
#[derive(Debug)]
pub struct Container {
    pub batch_id: i64,
    pub payloads: Vec<Payload>,
}

/// What a container holds.
pub struct ContainerSpec {
    pub batch_id: int,
    pub payloads: Seq<PayloadSpec>,
}

/// What a list of payloads holds.
pub open spec fn payloads_view(payloads: Seq<Payload>) -> Seq<PayloadSpec> {
    Seq::new(payloads.len(), |i: int| payloads[i]@)
}

impl View for Container {
    type V = ContainerSpec;

    open spec fn view(&self) -> ContainerSpec {
        ContainerSpec { batch_id: self.batch_id as int, payloads: payloads_view(self.payloads@) }
    }
}

/// Why bytes are no container.
#[derive(Clone, Copy, Debug, PartialEq, Eq, Structural)]
pub enum DecodeError {
    /// The bytes do not follow the wire schema of a container.
    Malformed,
}

/// The signed 32-bit number with the low 32 bits of `v`.
pub open spec fn wrap_i32(v: int) -> int {
    let low = v % 0x1_0000_0000;
    if low < 0x8000_0000 {
        low
    } else {
        low - 0x1_0000_0000
    }
}

/// The signed 64-bit number with the bits of the unsigned 64-bit number `v`.
pub open spec fn wrap_i64(v: int) -> int {
    if v < 0x8000_0000_0000_0000 {
        v
    } else {
        v - 0x1_0000_0000_0000_0000
    }
}

/// The fields of a payload message as read so far.
pub struct PayloadDraft {
    pub schema_id: Seq<char>,
    pub code: int,
    pub record: Seq<u8>,
}

/// A payload message of which no field has been read: an empty schema
/// identifier, type number 0 and no bytes.
pub open spec fn empty_payload() -> PayloadDraft {
    PayloadDraft { schema_id: Seq::empty(), code: 0, record: Seq::empty() }
}

/// A payload message after one more field.
///
/// Field 1 is the schema identifier, bytes that are valid UTF-8. Field 2 is
/// the type number, an integer of which the low 32 bits count. Field 3 is
/// the embedded stream. A later value of a field replaces an earlier one.
/// One of these fields with another wire type is an error; any other field
/// is passed over.
pub open spec fn payload_field(d: PayloadDraft, f: WireFieldSpec) -> Option<PayloadDraft> {
    if f.tag == 1 {
        match f.value {
            WireValueSpec::Bytes(b) => if valid_utf8(b) {
                Some(PayloadDraft { schema_id: decode_utf8(b), code: d.code, record: d.record })
            } else {
                None
            },
            _ => None,
        }
    } else if f.tag == 2 {
        match f.value {
            WireValueSpec::Varint(v) => Some(
                PayloadDraft { schema_id: d.schema_id, code: wrap_i32(v), record: d.record },
            ),
            _ => None,
        }
    } else if f.tag == 3 {
        match f.value {
            WireValueSpec::Bytes(b) => Some(
                PayloadDraft { schema_id: d.schema_id, code: d.code, record: b },
            ),
            _ => None,
        }
    } else {
        Some(d)
    }
}

/// A payload message after the given fields.
pub open spec fn payload_fields(d: PayloadDraft, fields: Seq<WireFieldSpec>) -> Option<
    PayloadDraft,
>
    decreases fields.len(),
{
    if fields.len() == 0 {
        Some(d)
    } else {
        match payload_field(d, fields[0]) {
            Some(next) => payload_fields(next, fields.skip(1)),
            None => None,
        }
    }
}

/// The payload that the message `s` encodes. There is none where `s` is not
/// a sequence of fields, where a field of the payload is in error, or where
/// no kind of payload has the type number.
pub open spec fn spec_payload(s: Seq<u8>) -> Option<PayloadSpec> {
    match spec_fields(s) {
        None => None,
        Some(fields) => match payload_fields(empty_payload(), fields) {
            None => None,
            Some(d) => match PayloadType::spec_from_code(d.code) {
                Some(kind) => Some(
                    PayloadSpec { schema_id: d.schema_id, payload_type: kind, bytes: d.record },
                ),
                None => None,
            },
        },
    }
}

/// A container of which no field has been read: batch 0 without payloads.
pub open spec fn empty_container() -> ContainerSpec {
    ContainerSpec { batch_id: 0, payloads: Seq::empty() }
}

/// A container after one more field.
///
/// Field 1 is the batch identifier, a signed 64-bit integer; a later value
/// replaces an earlier one. Every field 2 is one payload message, and the
/// payloads stand in the order of their fields. Field 3 holds bytes, which
/// are not kept. One of these fields with another wire type is an error; any
/// other field is passed over.
pub open spec fn container_field(c: ContainerSpec, f: WireFieldSpec) -> Option<ContainerSpec> {
    if f.tag == 1 {
        match f.value {
            WireValueSpec::Varint(v) => Some(
                ContainerSpec { batch_id: wrap_i64(v), payloads: c.payloads },
            ),
            _ => None,
        }
    } else if f.tag == 2 {
        match f.value {
            WireValueSpec::Bytes(b) => match spec_payload(b) {
                Some(p) => Some(
                    ContainerSpec { batch_id: c.batch_id, payloads: c.payloads.push(p) },
                ),
                None => None,
            },
            _ => None,
        }
    } else if f.tag == 3 {
        match f.value {
            WireValueSpec::Bytes(_) => Some(c),
            _ => None,
        }
    } else {
        Some(c)
    }
}

/// A container after the given fields.
pub open spec fn container_fields(c: ContainerSpec, fields: Seq<WireFieldSpec>) -> Option<
    ContainerSpec,
>
    decreases fields.len(),
{
    if fields.len() == 0 {
        Some(c)
    } else {
        match container_field(c, fields[0]) {
            Some(next) => container_fields(next, fields.skip(1)),
            None => None,
        }
    }
}

/// The container that the bytes `s` encode. There is none where `s` is not
/// a sequence of fields, or where a field of the container is in error.
pub open spec fn spec_container(s: Seq<u8>) -> Option<ContainerSpec> {
    match spec_fields(s) {
        None => None,
        Some(fields) => container_fields(empty_container(), fields),
    }
}

/// The text that the bytes spell in UTF-8, where they are valid UTF-8.
///
/// This is `String::from_utf8` of the standard library, which returns the
/// bytes as a string exactly where they are valid UTF-8.
#[verifier::external_body]
fn text_from_utf8(bytes: Vec<u8>) -> (r: Option<String>)
    ensures
        r is Some <==> valid_utf8(bytes@),
        r matches Some(text) ==> text@ == decode_utf8(bytes@),
{
    String::from_utf8(bytes).ok()
}

/// The signed 32-bit number with the low 32 bits of `v`.
fn low_i32(v: u64) -> (r: i32)
    ensures
        r == wrap_i32(v as int),
{
    let low = v % 0x1_0000_0000;
    if low < 0x8000_0000 {
        low as i32
    } else {
        let high = low - 0x8000_0000;
        (high as i64 - 0x8000_0000) as i32
    }
}

/// The signed 64-bit number with the bits of `v`.
fn as_i64(v: u64) -> (r: i64)
    ensures
        r == wrap_i64(v as int),
{
    if v < 0x8000_0000_0000_0000 {
        v as i64
    } else {
        let high = v - 0x8000_0000_0000_0000;
        (high as i64) + i64::MIN
    }
}

/// Reads the payload message that lies in `b` from `start` up to `end`.
#[verifier::loop_isolation(false)]
fn decode_payload(b: &[u8], start: usize, end: usize) -> (r: Option<Payload>)
    requires
        start <= end <= b@.len(),
    ensures
        match r {
            Some(p) => spec_payload(b@.subrange(start as int, end as int)) == Some(p@),
            None => spec_payload(b@.subrange(start as int, end as int)) is None,
        },
{
    let fields = match read_fields(b, start, end) {
        Some(fields) => fields,
        None => {
            return None;
        },
    };
    let ghost all = fields_view(fields@, b@);
    let mut schema_id = String::new();
    let mut code: i32 = 0;
    let mut record_start: usize = start;
    let mut record_end: usize = start;
    let mut i: usize = 0;
    assert(all.skip(0) =~= all);
    assert(b@.subrange(start as int, start as int) =~= Seq::<u8>::empty());
    while i < fields.len()
        invariant
            i <= fields@.len(),
            start <= record_start <= record_end <= end,
            payload_fields(empty_payload(), all) == payload_fields(
                PayloadDraft {
                    schema_id: schema_id@,
                    code: code as int,
                    record: b@.subrange(record_start as int, record_end as int),
                },
                all.skip(i as int),
            ),
        decreases fields@.len() - i,
    {
        let f = fields[i];
        let ghost rest = all.skip(i as int);
        assert(rest[0] == f.view_in(b@));
        assert(rest.skip(1) =~= all.skip(i + 1));
        assert(f.within(start as int, end as int));
        if f.tag == 1 {
            match f.value {
                WireValue::Bytes { start: from, end: to } => {
                    let bytes = slice_to_vec(slice_subrange(b, from, to));
                    match text_from_utf8(bytes) {
                        Some(text) => {
                            schema_id = text;
                        },
                        None => {
                            return None;
                        },
                    }
                },
                _ => {
                    return None;
                },
            }
        } else if f.tag == 2 {
            match f.value {
                WireValue::Varint(v) => {
                    code = low_i32(v);
                },
                _ => {
                    return None;
                },
            }
        } else if f.tag == 3 {
            match f.value {
                WireValue::Bytes { start: from, end: to } => {
                    record_start = from;
                    record_end = to;
                },
                _ => {
                    return None;
                },
            }
        }
        i += 1;
    }
    assert(all.skip(i as int).len() == 0);
    match PayloadType::from_code(code) {
        Some(payload_type) => Some(
            Payload {
                schema_id,
                payload_type,
                bytes: slice_to_vec(slice_subrange(b, record_start, record_end)),
            },
        ),
        None => None,
    }
}

/// Decodes a container from its wire encoding.
///
/// The bytes must be a sequence of fields. The batch identifier, the payload
/// messages and the header bytes must have their wire types, every payload
/// message must itself decode, and every payload must name a known kind of
/// table. Fields with other numbers are passed over. Anything else is
/// `Malformed`, and then there is no container at all. The embedded streams
/// are copied and not looked into.
#[verifier::loop_isolation(false)]
pub fn decode(bytes: &[u8]) -> (r: Result<Container, DecodeError>)
    ensures
        match r {
            Ok(c) => spec_container(bytes@) == Some(c@),
            Err(_) => spec_container(bytes@) is None,
        },
{
    assert(bytes@.subrange(0, bytes@.len() as int) =~= bytes@);
    let fields = match read_fields(bytes, 0, bytes.len()) {
        Some(fields) => fields,
        None => {
            return Err(DecodeError::Malformed);
        },
    };
    let ghost all = fields_view(fields@, bytes@);
    let mut batch_id: i64 = 0;
    let mut payloads: Vec<Payload> = Vec::new();
    let mut i: usize = 0;
    assert(all.skip(0) =~= all);
    assert(payloads_view(payloads@) =~= Seq::<PayloadSpec>::empty());
    while i < fields.len()
        invariant
            i <= fields@.len(),
            container_fields(empty_container(), all) == container_fields(
                ContainerSpec { batch_id: batch_id as int, payloads: payloads_view(payloads@) },
                all.skip(i as int),
            ),
        decreases fields@.len() - i,
    {
        let f = fields[i];
        let ghost rest = all.skip(i as int);
        assert(rest[0] == f.view_in(bytes@));
        assert(rest.skip(1) =~= all.skip(i + 1));
        assert(f.within(0, bytes@.len() as int));
        if f.tag == 1 {
            match f.value {
                WireValue::Varint(v) => {
                    batch_id = as_i64(v);
                },
                _ => {
                    return Err(DecodeError::Malformed);
                },
            }
        } else if f.tag == 2 {
            match f.value {
                WireValue::Bytes { start, end } => {
                    match decode_payload(bytes, start, end) {
                        Some(p) => {
                            let ghost before = payloads_view(payloads@);
                            payloads.push(p);
                            assert(payloads_view(payloads@) =~= before.push(p@));
                        },
                        None => {
                            return Err(DecodeError::Malformed);
                        },
                    }
                },
                _ => {
                    return Err(DecodeError::Malformed);
                },
            }
        } else if f.tag == 3 {
            match f.value {
                WireValue::Bytes { .. } => {},
                _ => {
                    return Err(DecodeError::Malformed);
                },
            }
        }
        i += 1;
    }
    assert(all.skip(i as int).len() == 0);
    Ok(Container { batch_id, payloads })
}

} // verus!
