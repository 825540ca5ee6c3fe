//! The codecs of other crates that the text form of a container rests on.
//! What is stated of them here is believed, not proved.

use vstd::prelude::*;

verus! {

/// The bytes that a text stands for in standard base64 with padding, where
/// it stands for any.
pub uninterp spec fn base64_standard_decoded(text: Seq<char>) -> Option<Seq<u8>>;

/// Decodes standard base64 with padding.
///
/// This is `Engine::decode` of the `base64` crate on its `STANDARD` engine,
/// with its error dropped. Its result depends on the text alone; nothing
/// more is claimed of it.
#[verifier::external_body]
pub(crate) fn base64_decode(text: &str) -> (r: Option<Vec<u8>>)
    ensures
        match r {
            Some(bytes) => base64_standard_decoded(text@) == Some(bytes@),
            None => base64_standard_decoded(text@) is None,
        },
{
    base64::Engine::decode(&base64::engine::general_purpose::STANDARD, text).ok()
}

/// The bytes that a zstd stream decompresses to, where it is one.
pub uninterp spec fn zstd_decoded(bytes: Seq<u8>) -> Option<Seq<u8>>;

/// Decompresses a zstd stream.
///
/// This is `zstd::decode_all`, with its error dropped. Its result depends
/// on the bytes alone; nothing more is claimed of it.
#[verifier::external_body]
pub(crate) fn zstd_decode_all(bytes: &[u8]) -> (r: Option<Vec<u8>>)
    ensures
        match r {
            Some(out) => zstd_decoded(bytes@) == Some(out@),
            None => zstd_decoded(bytes@) is None,
        },
{
    zstd::decode_all(bytes).ok()
}

} // verus!
