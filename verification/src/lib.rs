//! A verified codec for the PNG chunk container format.
//!
//! The library models a PNG file as a fixed 8-byte signature followed by an
//! ordered sequence of chunks, where each chunk is a length-type-payload-crc
//! envelope.  Parsing validates the signature, every chunk type and every
//! checksum; serialization is proved to be the exact inverse of parsing.

pub mod args;
pub mod be32;
pub mod chunk;
pub mod chunk_type;
pub mod commands;
pub mod error;
pub mod png;
pub mod text;
