//! Decoder for FTR ("Fast Transaction Recorder") traces: a binary format that
//! records protocol-level transactions over named streams. The decoder runs a
//! cheap header/index pass that discovers streams, generators, the string
//! dictionary and per-stream block descriptors, and then materializes each
//! stream's transactions on demand, block by block.

use vstd::prelude::*;

pub mod bigint;
pub mod block;
pub mod compress;
pub mod dict;
pub mod laws;
pub mod parse;
pub mod store;
pub mod primitive;
pub mod types;

verus! {

/// Errors surfaced by the decoder. Header-pass errors are fatal (no partial
/// store is returned); block-load errors abort only the failing load call.
#[derive(Clone, Copy, Debug, PartialEq, Eq)]
pub enum FtrError {
    /// The underlying source ended before a record was complete.
    UnexpectedEndOfInput,
    /// A variable-length integer does not fit the width its use demands.
    MalformedVarint,
    /// A top-level record carries a tag the format does not define.
    UnknownRecordTag,
    /// A dictionary key was assigned twice.
    DuplicateDictionaryKey,
    /// A record refers to a dictionary key that was never assigned.
    UnknownDictionaryKey,
    /// A stream or generator definition reuses an id already taken.
    DuplicateId,
    /// A record refers to a stream or generator defined only later, or never.
    ForwardReference,
    /// A load or lookup named a stream id that is not in the store.
    UnknownStream,
    /// A decoded transaction names a generator id that is not in the store.
    UnknownGenerator,
    /// A compressed block's payload could not be decompressed.
    DecompressionError,
}

} // verus!
