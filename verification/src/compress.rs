//! Block decompression. A compressed block's payload is an LZ4 block with
//! its uncompressed size prepended; what the decompressor makes of a payload
//! depends on the payload alone, so the result is given a name that the
//! loader's contracts speak of.

use vstd::prelude::*;

verus! {

/// What lz4_flex's size-prepended block decoding makes of a payload:
/// the decompressed bytes, or nothing when the payload is not a valid block.
pub uninterp spec fn lz4_decompressed(bytes: Seq<u8>) -> Option<Seq<u8>>;

/// Relies on lz4_flex::block::decompress_size_prepended: the result depends
/// on the input bytes alone.
#[verifier::external_body]
pub(crate) fn decompress(bytes: &[u8]) -> (r: Option<Vec<u8>>)
    ensures
        match r {
            Some(v) => lz4_decompressed(bytes@) == Some(v@),
            None => lz4_decompressed(bytes@) is None,
        },
{
    match lz4_flex::block::decompress_size_prepended(bytes) {
        Ok(v) => Some(v),
        Err(_) => None,
    }
}

} // verus!
