//! A verified codec for the chunk structure of PNG files.
//!
//! The library parses, validates, mutates and re-serializes the chunk layer
//! of a PNG byte buffer: the 4-byte chunk-type tags with their per-byte case
//! flags, the length-prefixed chunk framing with CRC-32 verification, and the
//! whole-file container that holds an ordered sequence of chunks behind the
//! fixed 8-byte signature.  Pixel data is never interpreted: a chunk's payload
//! is an opaque byte sequence, which is what lets arbitrary messages ride
//! along inside a structurally intact file.

pub mod chunk;
pub mod chunk_type;
pub mod error;
pub mod png;
pub mod text;
pub mod wire;
