//! How bytes are spelled on the link and how they are checked.
use base64::engine::general_purpose::STANDARD;
use base64::Engine;
use vstd::prelude::*;

use crate::bridge::codec;

verus! {

/// Wrapper of `encode` of the `base64` crate's standard engine: the text of
/// RFC 4648 with its standard alphabet, padded with `=`.
#[verifier::external_body]
pub(crate) fn base64(data: &[u8]) -> (r: String)
    ensures
        r@ == codec::base64_text(data@),
{
    STANDARD.encode(data)
}

/// Wrapper of `hash` of the `crc32fast` crate: the CRC-32 (IEEE) of the data.
#[verifier::external_body]
pub(crate) fn crc32(data: &[u8]) -> (r: u32)
    ensures
        r == codec::crc32_spec(data@),
{
    crc32fast::hash(data)
}

} // verus!
