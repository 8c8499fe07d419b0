//! Chunks of a PNG file: the four-letter chunk type with the flags its
//! letter case encodes, and the length-prefixed, checksummed record that
//! carries a payload under such a type.

pub mod big_endian;
pub mod checksum;
pub mod chunk;
pub mod chunk_type;
pub mod error;
pub mod text;
