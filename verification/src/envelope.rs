//! Containers that arrive as text: a compressed file of lines, each line one
//! batch, with the embedded streams written in base64.

use crate::codec::{base64_decode, base64_standard_decoded, zstd_decode_all, zstd_decoded};
use crate::container::{
    payloads_view, Container, ContainerSpec, DecodeError, Payload, PayloadSpec,
};
use crate::payload::PayloadType;
use vstd::prelude::*;

verus! {

/// One payload of a batch in its text form: the schema identifier, the
/// number of the kind, and the embedded stream in base64.
#[derive(Debug)]
pub struct ArrowPayload2 {
    pub schema_id: String,
    pub t: i32,
    pub record: String,
}

/// A batch in its text form.
#[derive(Debug)]
pub struct BatchArrowRecords2 {
    pub arrow_payloads: Vec<ArrowPayload2>,
}

/// What a payload in text form states.
pub struct TextPayloadSpec {
    pub schema_id: Seq<char>,
    pub t: int,
    pub record: Seq<char>,
}

impl View for ArrowPayload2 {
    type V = TextPayloadSpec;

    open spec fn view(&self) -> TextPayloadSpec {
        TextPayloadSpec { schema_id: self.schema_id@, t: self.t as int, record: self.record@ }
    }
}

impl View for BatchArrowRecords2 {
    type V = Seq<TextPayloadSpec>;

    open spec fn view(&self) -> Seq<TextPayloadSpec> {
        Seq::new(self.arrow_payloads@.len(), |i: int| self.arrow_payloads@[i]@)
    }
}

/// The payload of a schema identifier, the number of a kind and the bytes of
/// an embedded stream, where there are bytes and a kind has the number.
pub open spec fn spec_payload_of(schema_id: Seq<char>, t: int, record: Option<Seq<u8>>) -> Option<
    PayloadSpec,
> {
    match (PayloadType::spec_from_code(t), record) {
        (Some(kind), Some(bytes)) => Some(PayloadSpec { schema_id, payload_type: kind, bytes }),
        _ => None,
    }
}

/// Makes a payload of its parts. The payload is `Malformed` where the
/// embedded stream could not be decoded, and where no kind has the number.
pub fn payload_of(schema_id: String, t: i32, record: Option<Vec<u8>>) -> (r: Result<
    Payload,
    DecodeError,
>)
    ensures
        match r {
            Ok(p) => spec_payload_of(
                schema_id@,
                t as int,
                match record {
                    Some(bytes) => Some(bytes@),
                    None => None,
                },
            ) == Some(p@),
            Err(_) => spec_payload_of(
                schema_id@,
                t as int,
                match record {
                    Some(bytes) => Some(bytes@),
                    None => None,
                },
            ) is None,
        },
{
    match (PayloadType::from_code(t), record) {
        (Some(payload_type), Some(bytes)) => Ok(Payload { schema_id, payload_type, bytes }),
        _ => Err(DecodeError::Malformed),
    }
}

/// The payload that a payload in text form stands for.
pub open spec fn spec_text_payload(p: TextPayloadSpec) -> Option<PayloadSpec> {
    spec_payload_of(p.schema_id, p.t, base64_standard_decoded(p.record))
}

/// The payloads that the first `n` payloads in text form stand for, where
/// each of them stands for one.
pub open spec fn spec_text_payloads(payloads: Seq<TextPayloadSpec>, n: nat) -> Option<
    Seq<PayloadSpec>,
>
    decreases n,
{
    if n == 0 {
        Some(Seq::empty())
    } else {
        match (
            spec_text_payloads(payloads, (n - 1) as nat),
            spec_text_payload(payloads[n - 1]),
        ) {
            (Some(front), Some(last)) => Some(front.push(last)),
            _ => None,
        }
    }
}

/// The container that a batch in text form stands for: batch 0 with the
/// payloads of the text, in their order.
pub open spec fn spec_text_container(batch: Seq<TextPayloadSpec>) -> Option<ContainerSpec> {
    match spec_text_payloads(batch, batch.len()) {
        Some(payloads) => Some(ContainerSpec { batch_id: 0, payloads }),
        None => None,
    }
}

impl ArrowPayload2 {
    /// The payload that this text stands for: its embedded stream decoded
    /// from base64, its kind looked up by number.
    pub fn into_payload(self) -> (r: Result<Payload, DecodeError>)
        ensures
            match r {
                Ok(p) => spec_text_payload(self@) == Some(p@),
                Err(_) => spec_text_payload(self@) is None,
            },
    {
        let record = base64_decode(self.record.as_str());
        payload_of(self.schema_id, self.t, record)
    }
}

impl BatchArrowRecords2 {
    /// The container that this text stands for. The batch identifier is 0.
    /// One payload that stands for none makes the whole batch `Malformed`.
    #[verifier::loop_isolation(false)]
    pub fn into_container(self) -> (r: Result<Container, DecodeError>)
        ensures
            match r {
                Ok(c) => spec_text_container(self@) == Some(c@),
                Err(_) => spec_text_container(self@) is None,
            },
    {
        let ghost all = self@;
        let total = self.arrow_payloads.len();
        let mut pending = self.arrow_payloads;
        let mut reversed: Vec<ArrowPayload2> = Vec::new();
        while pending.len() > 0
            invariant
                pending@.len() + reversed@.len() == all.len(),
                forall|i: int| 0 <= i < pending@.len() ==> (#[trigger] pending@[i])@ == all[i],
                forall|j: int|
                    0 <= j < reversed@.len() ==> (#[trigger] reversed@[j])@ == all[all.len() - 1 - j],
            decreases pending@.len(),
        {
            let last = pending.pop().unwrap();
            reversed.push(last);
        }
        let mut payloads: Vec<Payload> = Vec::new();
        let mut k: usize = 0;
        assert(payloads_view(payloads@) =~= Seq::<PayloadSpec>::empty());
        while k < total
            invariant
                k <= total,
                total == all.len(),
                reversed@.len() == total - k,
                forall|j: int|
                    0 <= j < reversed@.len() ==> (#[trigger] reversed@[j])@ == all[all.len() - 1 - j],
                spec_text_payloads(all, k as nat) == Some(payloads_view(payloads@)),
            decreases total - k,
        {
            let text = reversed.pop().unwrap();
            assert(text@ == all[k as int]);
            match text.into_payload() {
                Ok(p) => {
                    let ghost before = payloads_view(payloads@);
                    payloads.push(p);
                    assert(payloads_view(payloads@) =~= before.push(p@));
                },
                Err(e) => {
                    proof {
                        assert(spec_text_payload(all[k as int]) is None);
                        assert(spec_text_payloads(all, (k + 1) as nat) is None);
                        lemma_text_payloads_fail(all, (k + 1) as nat, all.len());
                    }
                    return Err(e);
                },
            }
            k += 1;
        }
        Ok(Container { batch_id: 0, payloads })
    }
}

/// Where the first `n` payloads do not all stand for a payload, no longer
/// list of them does.
proof fn lemma_text_payloads_fail(payloads: Seq<TextPayloadSpec>, n: nat, m: nat)
    requires
        n <= m,
        spec_text_payloads(payloads, n) is None,
    ensures
        spec_text_payloads(payloads, m) is None,
    decreases m,
{
    if n < m {
        lemma_text_payloads_fail(payloads, n, (m - 1) as nat);
    }
}

/// The place of the first line feed in `s`; the length of `s` where it has
/// none.
pub open spec fn line_end(s: Seq<u8>) -> int
    decreases s.len(),
{
    if s.len() == 0 {
        0
    } else if s[0] == 10 {
        0
    } else {
        1 + line_end(s.skip(1))
    }
}

/// A line without the carriage return at its end, if it has one.
pub open spec fn without_return(line: Seq<u8>) -> Seq<u8> {
    if line.len() > 0 && line.last() == 13 {
        line.drop_last()
    } else {
        line
    }
}

/// The lines of a text. A line ends with a line feed, or with a carriage
/// return and a line feed, which are not part of it. What follows the last
/// line feed is a line of its own where it is not empty.
pub open spec fn spec_lines(s: Seq<u8>) -> Seq<Seq<u8>>
    decreases s.len(),
{
    if s.len() == 0 {
        Seq::empty()
    } else {
        let end = line_end(s);
        if end < 0 || end >= s.len() {
            seq![s]
        } else {
            seq![without_return(s.take(end))] + spec_lines(s.skip(end + 1))
        }
    }
}

/// A place without a line feed before it, which holds one or is the end of
/// the text, is the end of the first line.
proof fn lemma_line_end_at(s: Seq<u8>, k: int)
    requires
        0 <= k <= s.len(),
        forall|i: int| 0 <= i < k ==> s[i] != 10,
        k < s.len() ==> s[k] == 10,
    ensures
        line_end(s) == k,
    decreases s.len(),
{
    if k > 0 {
        let rest = s.skip(1);
        assert(s[0] != 10);
        assert forall|i: int| 0 <= i < k - 1 implies rest[i] != 10 by {
            assert(rest[i] == s[i + 1]);
        }
        lemma_line_end_at(rest, k - 1);
    }
}

/// Copies the bytes from `start` up to `end`.
fn copy_range(b: &[u8], start: usize, end: usize) -> (r: Vec<u8>)
    requires
        start <= end <= b@.len(),
    ensures
        r@ == b@.subrange(start as int, end as int),
{
    let mut r: Vec<u8> = Vec::new();
    let mut i: usize = start;
    while i < end
        invariant
            start <= i <= end <= b@.len(),
            r@ == b@.subrange(start as int, i as int),
        decreases end - i,
    {
        r.push(b[i]);
        assert(r@ =~= b@.subrange(start as int, i + 1));
        i += 1;
    }
    r
}

/// Splits a text into its lines.
pub fn split_lines(bytes: &[u8]) -> (lines: Vec<Vec<u8>>)
    ensures
        lines@.len() == spec_lines(bytes@).len(),
        forall|i: int| 0 <= i < lines@.len() ==> (#[trigger] lines@[i])@ == spec_lines(bytes@)[i],
{
    let ghost all = bytes@;
    let mut lines: Vec<Vec<u8>> = Vec::new();
    let ghost mut done: Seq<Seq<u8>> = Seq::empty();
    let mut start: usize = 0;
    assert(all.skip(0) =~= all);
    while start < bytes.len()
        invariant
            start <= bytes@.len(),
            all == bytes@,
            lines@.len() == done.len(),
            forall|i: int| 0 <= i < lines@.len() ==> (#[trigger] lines@[i])@ == done[i],
            spec_lines(all) == done + spec_lines(all.skip(start as int)),
        decreases bytes@.len() - start,
    {
        let ghost rest = all.skip(start as int);
        let mut end: usize = start;
        while end < bytes.len() && bytes[end] != 10
            invariant
                start <= end <= bytes@.len(),
                all == bytes@,
                forall|i: int| start <= i < end ==> all[i] != 10,
            decreases bytes@.len() - end,
        {
            end += 1;
        }
        proof {
            assert forall|i: int| 0 <= i < end - start implies rest[i] != 10 by {
                assert(rest[i] == all[start + i]);
            }
            lemma_line_end_at(rest, end - start);
        }
        let ghost line: Seq<u8>;
        if end >= bytes.len() {
            let last = copy_range(bytes, start, end);
            proof {
                line = rest;
                assert(last@ =~= rest);
                assert(all.skip(end as int).len() == 0);
                assert(done + seq![rest] =~= done.push(rest));
                assert(spec_lines(rest) =~= seq![rest]);
            }
            lines.push(last);
            start = end;
        } else {
            let stop = if end > start && bytes[end - 1] == 13 {
                end - 1
            } else {
                end
            };
            let text = copy_range(bytes, start, stop);
            proof {
                line = without_return(rest.take(end - start));
                assert(rest.take(end - start) =~= all.subrange(start as int, end as int));
                assert(text@ =~= line);
                assert(rest.skip(end - start + 1) =~= all.skip(end + 1));
                assert(done + (seq![line] + spec_lines(all.skip(end + 1))) =~= done.push(line)
                    + spec_lines(all.skip(end + 1)));
            }
            lines.push(text);
            start = end + 1;
        }
        proof {
            done = done.push(line);
        }
    }
    proof {
        assert(all.skip(start as int).len() == 0);
        assert(done + Seq::<Seq<u8>>::empty() =~= done);
    }
    lines
}

/// The lines of the text that a zstd stream decompresses to.
pub open spec fn spec_compressed_lines(bytes: Seq<u8>) -> Option<Seq<Seq<u8>>> {
    match zstd_decoded(bytes) {
        Some(text) => Some(spec_lines(text)),
        None => None,
    }
}

/// Decompresses a zstd stream and splits the text into its lines, one batch
/// in text form on each. Returns `None` where the bytes are no zstd stream.
pub fn compressed_lines(bytes: &[u8]) -> (r: Option<Vec<Vec<u8>>>)
    ensures
        match r {
            Some(lines) => spec_compressed_lines(bytes@) matches Some(expected) && lines@.len()
                == expected.len() && forall|i: int|
                0 <= i < lines@.len() ==> (#[trigger] lines@[i])@ == expected[i],
            None => spec_compressed_lines(bytes@) is None,
        },
{
    match zstd_decode_all(bytes) {
        Some(text) => Some(split_lines(text.as_slice())),
        None => None,
    }
}

} // verus!
