use vstd::prelude::*;

verus! {

/// Why a chunk type or a chunk was rejected.
#[derive(Debug, Clone, Copy, PartialEq, Eq, Structural)]
pub enum ChunkError {
    /// The text of a chunk type is not four bytes long.
    InvalidFormat,
    /// The text of a chunk type holds a byte that is no ASCII letter.
    InvalidCharacter,
    /// The input ends before the field that is being read does.
    TruncatedInput,
    /// The stored checksum is not the checksum of the stored type and payload.
    ChecksumMismatch,
    /// Bytes follow the record where the input had to end with it.
    TrailingData,
    /// The bytes are not UTF-8 text.
    EncodingError,
}

} // verus!
