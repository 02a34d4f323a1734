//! The failure taxonomy of the container codec.

use vstd::prelude::*;
use crate::chunk_type::ChunkTypeError;

verus! {

/// Everything that can go wrong while parsing, decoding or editing a
/// container.
#[derive(Debug, PartialEq, Eq)]
pub enum PngError {
    /// A chunk type code could not be built while parsing a chunk.
    ChunkType(ChunkTypeError),
    /// Fewer bytes remain in the buffer than a declared field requires.
    Truncated,
    /// A chunk's stored checksum disagrees with the recomputed one:
    /// the recomputed value first, the stored one second.
    CrcMismatch(u32, u32),
    /// The buffer does not begin with the 8-byte signature.
    SignatureMismatch,
    /// A removal request found no chunk of the named type.
    ChunkNotFound(String),
    /// A payload that was asked for as text is not valid UTF-8.
    DecodeError,
}

} // verus!
