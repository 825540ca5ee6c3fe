//! The tagged, length-prefixed wire encoding in which containers travel:
//! base-128 integers, field keys and the fields of a message.

use vstd::prelude::*;

verus! {

/// 128 to the power of `i`.
pub open spec fn pow128(i: nat) -> int
    decreases i,
{
    if i == 0 {
        1
    } else {
        128 * pow128((i - 1) as nat)
    }
}

/// The number that the low seven bits of the first `n` bytes spell, least
/// significant group first.
pub open spec fn base128(s: Seq<u8>, n: nat) -> int
    decreases n,
{
    if n == 0 {
        0
    } else {
        base128(s, (n - 1) as nat) + (s[n - 1] % 128) * pow128((n - 1) as nat)
    }
}

/// The number of bytes of the integer that starts `s`, looking from byte `i`
/// on: one more than the place of the first byte below 128. An integer has
/// at most ten bytes, all of them present.
pub open spec fn varint_size_from(s: Seq<u8>, i: int) -> Option<int>
    decreases 10 - i,
{
    if i < 0 || i >= 10 || i >= s.len() {
        None
    } else if s[i] < 128 {
        Some(i + 1)
    } else {
        varint_size_from(s, i + 1)
    }
}

/// The base-128 integer at the start of `s`, with the number of bytes that it
/// takes. There is none where the bytes end inside it, where it has more than
/// ten bytes, or where its value needs more than 64 bits.
pub open spec fn spec_varint(s: Seq<u8>) -> Option<(int, int)> {
    match varint_size_from(s, 0) {
        Some(n) => if base128(s, n as nat) <= u64::MAX {
            Some((base128(s, n as nat), n))
        } else {
            None
        },
        None => None,
    }
}

/// What a field carries, by the wire type of its key.
pub enum WireValueSpec {
    /// Wire type 0: a base-128 integer.
    Varint(int),
    /// Wire type 1: eight bytes.
    Fixed64,
    /// Wire type 2: a length and that many bytes.
    Bytes(Seq<u8>),
    /// Wire type 5: four bytes.
    Fixed32,
}

/// One field of a message: its number and what it carries.
pub struct WireFieldSpec {
    pub tag: int,
    pub value: WireValueSpec,
}

/// The field at the start of `s`, with the number of bytes that it takes.
///
/// A field starts with a key, a base-128 integer of at most 32 bits: the
/// field's number, which is not 0, times 8, plus the wire type. There is no
/// field where the key is not such a number, where the wire type is none of
/// 0, 1, 2 and 5, or where the bytes end before the field does.
pub open spec fn spec_field(s: Seq<u8>) -> Option<(WireFieldSpec, int)> {
    match spec_varint(s) {
        None => None,
        Some((key, k)) => {
            let tag = key / 8;
            let wire_type = key % 8;
            let rest = s.skip(k);
            if key > u32::MAX || tag == 0 {
                None
            } else if wire_type == 0 {
                match spec_varint(rest) {
                    Some((v, n)) => Some(
                        (WireFieldSpec { tag, value: WireValueSpec::Varint(v) }, k + n),
                    ),
                    None => None,
                }
            } else if wire_type == 1 {
                if rest.len() >= 8 {
                    Some((WireFieldSpec { tag, value: WireValueSpec::Fixed64 }, k + 8))
                } else {
                    None
                }
            } else if wire_type == 2 {
                match spec_varint(rest) {
                    Some((len, n)) => if len <= rest.len() - n {
                        Some(
                            (
                                WireFieldSpec {
                                    tag,
                                    value: WireValueSpec::Bytes(rest.subrange(n, n + len)),
                                },
                                k + n + len,
                            ),
                        )
                    } else {
                        None
                    },
                    None => None,
                }
            } else if wire_type == 5 {
                if rest.len() >= 4 {
                    Some((WireFieldSpec { tag, value: WireValueSpec::Fixed32 }, k + 4))
                } else {
                    None
                }
            } else {
                None
            }
        },
    }
}

/// The fields of the message `s`, in the order in which they stand. There
/// are none where some part of `s` is no field.
pub open spec fn spec_fields(s: Seq<u8>) -> Option<Seq<WireFieldSpec>>
    decreases s.len(),
{
    if s.len() == 0 {
        Some(Seq::empty())
    } else {
        match spec_field(s) {
            None => None,
            Some((f, n)) => if 0 < n <= s.len() {
                match spec_fields(s.skip(n)) {
                    Some(rest) => Some(seq![f] + rest),
                    None => None,
                }
            } else {
                None
            },
        }
    }
}

/// The first powers of 128.
pub proof fn lemma_pow128_values()
    ensures
        pow128(0) == 1,
        pow128(1) == 0x80,
        pow128(2) == 0x4000,
        pow128(3) == 0x20_0000,
        pow128(4) == 0x1000_0000,
        pow128(5) == 0x8_0000_0000,
        pow128(6) == 0x400_0000_0000,
        pow128(7) == 0x2_0000_0000_0000,
        pow128(8) == 0x100_0000_0000_0000,
        pow128(9) == 0x8000_0000_0000_0000,
        pow128(10) == 0x40_0000_0000_0000_0000,
{
    reveal_with_fuel(pow128, 11);
}

/// `n` bytes spell a number below 128 to the power of `n`.
pub proof fn lemma_base128_bound(s: Seq<u8>, n: nat)
    ensures
        0 <= base128(s, n) < pow128(n),
    decreases n,
{
    if n > 0 {
        lemma_base128_bound(s, (n - 1) as nat);
        let low = (s[n - 1] % 128) as int;
        let scale = pow128((n - 1) as nat);
        assert(0 <= low * scale <= 127 * scale) by (nonlinear_arith)
            requires
                0 <= low <= 127,
                0 <= scale,
        ;
    }
}

/// Reads the base-128 integer that starts at `pos` and ends before `end`.
/// Returns its value and the position behind it.
pub fn read_varint(b: &[u8], pos: usize, end: usize) -> (r: Option<(u64, usize)>)
    requires
        pos <= end <= b@.len(),
    ensures
        match r {
            Some((v, next)) => spec_varint(b@.subrange(pos as int, end as int)) == Some(
                (v as int, next - pos),
            ) && pos < next <= end,
            None => spec_varint(b@.subrange(pos as int, end as int)) is None,
        },
{
    let ghost s = b@.subrange(pos as int, end as int);
    let mut value: u64 = 0;
    let mut scale: u64 = 1;
    let mut i: usize = 0;
    proof {
        lemma_pow128_values();
    }
    while i < 10 && i < end - pos
        invariant
            pos <= end <= b@.len(),
            s == b@.subrange(pos as int, end as int),
            i <= 10,
            i <= end - pos,
            i < 10 ==> scale == pow128(i as nat),
            value == base128(s, i as nat),
            varint_size_from(s, 0) == varint_size_from(s, i as int),
        decreases 10 - i,
    {
        let byte = b[pos + i];
        assert(byte == s[i as int]);
        let low = byte % 128;
        proof {
            lemma_pow128_values();
            lemma_base128_bound(s, i as nat);
            lemma_base128_bound(s, (i + 1) as nat);
            reveal_with_fuel(pow128, 2);
            assert(0 <= low * scale <= 127 * scale) by (nonlinear_arith)
                requires
                    0 <= low <= 127,
                    0 <= scale,
            ;
        }
        if i == 9 && byte > 1 {
            proof {
                if byte < 128 {
                    assert(varint_size_from(s, 9) == Some(10int));
                    assert(low * scale >= 2 * scale) by (nonlinear_arith)
                        requires
                            low >= 2,
                            0 <= scale,
                    ;
                    assert(base128(s, 10) > u64::MAX);
                } else {
                    assert(varint_size_from(s, 10) is None);
                }
            }
            return None;
        }
        proof {
            if i == 9 {
                assert(low * scale <= scale) by (nonlinear_arith)
                    requires
                        0 <= low <= 1,
                        0 <= scale,
                ;
            }
            assert(i < 9 ==> pow128((i + 1) as nat) <= 0x8000_0000_0000_0000);
        }
        value = value + (low as u64) * scale;
        if byte < 128 {
            return Some((value, pos + i + 1));
        }
        i += 1;
        if i < 10 {
            scale = scale * 128;
        }
    }
    None
}

/// What a field carries, with the bytes of a length-delimited field given by
/// their place in the buffer.
#[derive(Clone, Copy, Debug, PartialEq, Eq)]
pub enum WireValue {
    Varint(u64),
    Fixed64,
    Bytes { start: usize, end: usize },
    Fixed32,
}

/// One field of a message in a buffer.
#[derive(Clone, Copy, Debug, PartialEq, Eq)]
pub struct WireField {
    pub tag: u32,
    pub value: WireValue,
}

impl WireField {
    /// What the field states, its bytes taken from the buffer `b`.
    pub open spec fn view_in(self, b: Seq<u8>) -> WireFieldSpec {
        WireFieldSpec {
            tag: self.tag as int,
            value: match self.value {
                WireValue::Varint(v) => WireValueSpec::Varint(v as int),
                WireValue::Fixed64 => WireValueSpec::Fixed64,
                WireValue::Bytes { start, end } => WireValueSpec::Bytes(
                    b.subrange(start as int, end as int),
                ),
                WireValue::Fixed32 => WireValueSpec::Fixed32,
            },
        }
    }

    /// The bytes of the field, where it has any, lie in the buffer between
    /// `lo` and `hi`.
    pub open spec fn within(self, lo: int, hi: int) -> bool {
        match self.value {
            WireValue::Bytes { start, end } => lo <= start <= end <= hi,
            _ => true,
        }
    }
}

/// What a list of fields states, their bytes taken from the buffer `b`.
pub open spec fn fields_view(fields: Seq<WireField>, b: Seq<u8>) -> Seq<WireFieldSpec> {
    Seq::new(fields.len(), |i: int| fields[i].view_in(b))
}

/// Reads the field that starts at `pos` and ends before `end`. Returns the
/// field and the position behind it.
pub fn read_field(b: &[u8], pos: usize, end: usize) -> (r: Option<(WireField, usize)>)
    requires
        pos <= end <= b@.len(),
    ensures
        match r {
            Some((f, next)) => {
                &&& spec_field(b@.subrange(pos as int, end as int)) == Some(
                    (f.view_in(b@), next - pos),
                )
                &&& pos < next <= end
                &&& f.within(pos as int, next as int)
                &&& f.tag > 0
            },
            None => spec_field(b@.subrange(pos as int, end as int)) is None,
        },
{
    let ghost s = b@.subrange(pos as int, end as int);
    let (key, at) = match read_varint(b, pos, end) {
        Some(found) => found,
        None => {
            return None;
        },
    };
    let ghost k = at - pos;
    let ghost rest = s.skip(k);
    assert(rest =~= b@.subrange(at as int, end as int));
    if key > 0xffff_ffff {
        return None;
    }
    let tag = (key / 8) as u32;
    let wire_type = key % 8;
    if tag == 0 {
        return None;
    }
    if wire_type == 0 {
        match read_varint(b, at, end) {
            Some((v, next)) => Some((WireField { tag, value: WireValue::Varint(v) }, next)),
            None => None,
        }
    } else if wire_type == 1 {
        if end - at >= 8 {
            Some((WireField { tag, value: WireValue::Fixed64 }, at + 8))
        } else {
            None
        }
    } else if wire_type == 2 {
        match read_varint(b, at, end) {
            Some((len, start)) => {
                if len <= (end - start) as u64 {
                    let stop = start + len as usize;
                    assert(rest.subrange(start - at, start - at + len) =~= b@.subrange(
                        start as int,
                        stop as int,
                    ));
                    Some((WireField { tag, value: WireValue::Bytes { start, end: stop } }, stop))
                } else {
                    None
                }
            },
            None => None,
        }
    } else if wire_type == 5 {
        if end - at >= 4 {
            Some((WireField { tag, value: WireValue::Fixed32 }, at + 4))
        } else {
            None
        }
    } else {
        None
    }
}

/// Reads the fields of the message that starts at `start` and ends before
/// `end`.
pub fn read_fields(b: &[u8], start: usize, end: usize) -> (r: Option<Vec<WireField>>)
    requires
        start <= end <= b@.len(),
    ensures
        match r {
            Some(fields) => {
                &&& spec_fields(b@.subrange(start as int, end as int)) == Some(
                    fields_view(fields@, b@),
                )
                &&& forall|i: int|
                    0 <= i < fields@.len() ==> (#[trigger] fields@[i]).within(
                        start as int,
                        end as int,
                    )
            },
            None => spec_fields(b@.subrange(start as int, end as int)) is None,
        },
{
    let ghost whole = b@.subrange(start as int, end as int);
    let mut fields: Vec<WireField> = Vec::new();
    let mut pos: usize = start;
    assert(b@.subrange(start as int, end as int).skip(0) =~= whole);
    while pos < end
        invariant
            start <= pos <= end <= b@.len(),
            whole == b@.subrange(start as int, end as int),
            forall|i: int|
                0 <= i < fields@.len() ==> (#[trigger] fields@[i]).within(start as int, end as int),
            spec_fields(whole) == match spec_fields(b@.subrange(pos as int, end as int)) {
                Some(rest) => Some(fields_view(fields@, b@) + rest),
                None => None,
            },
        decreases end - pos,
    {
        let ghost s = b@.subrange(pos as int, end as int);
        let ghost before = fields_view(fields@, b@);
        match read_field(b, pos, end) {
            Some((f, next)) => {
                assert(s.skip(next - pos) =~= b@.subrange(next as int, end as int));
                fields.push(f);
                proof {
                    let after = fields_view(fields@, b@);
                    assert(after =~= before + seq![f.view_in(b@)]);
                    match spec_fields(b@.subrange(next as int, end as int)) {
                        Some(rest) => {
                            assert(before + (seq![f.view_in(b@)] + rest) =~= after + rest);
                        },
                        None => {},
                    }
                }
                pos = next;
            },
            None => {
                return None;
            },
        }
    }
    proof {
        assert(b@.subrange(pos as int, end as int).len() == 0);
        assert(fields_view(fields@, b@) + Seq::<WireFieldSpec>::empty() =~= fields_view(
            fields@,
            b@,
        ));
    }
    Some(fields)
}

} // verus!
