//! The error types of the codec.
//!
//! Every failure of the library is a value of one of these enums; nothing is
//! reported through panics.  The variants mirror the byte-level grammar: one
//! variant per way a tag, a chunk frame or a whole buffer can be malformed.

use vstd::prelude::*;

verus! {

/// Failure of parsing a 4-byte chunk-type tag.
#[derive(Debug, PartialEq, Eq)]
pub enum ChunkTypeParseError {
    /// A byte of the tag is not an ASCII letter; holds the offending
    /// character (the first one, in tag order).
    NotAsciiChar(char),
    /// A textual tag does not consist of exactly 4 characters; holds the
    /// actual character count.
    FromStrInvalidNumberOfChars(usize),
}

/// Failure of parsing one length-prefixed chunk from bytes.
#[derive(Debug, PartialEq, Eq)]
pub enum ChunkParseError {
    /// The 4-byte type tag was malformed.
    ChunkTypeParseError(ChunkTypeParseError),
    /// Fewer than 4 bytes were available for the length field.
    NotEnoughBytesToParseLength,
    /// Fewer than 4 bytes remained for the type tag.
    NotEnoughBytesToParseType,
    /// More data bytes were present than a 32-bit length can describe.
    LengthDoesNotFitToU32,
    /// The declared length disagrees with the number of data bytes present.
    EncodedLengthNotEqualToActual,
    /// Fewer than 4 bytes remained for the checksum field.
    CouldNotParseCrc,
    /// The declared checksum disagrees with the checksum recomputed over the
    /// type tag and the data.
    CrcMismatch,
}

/// Failure of reading a chunk's data as text.
#[derive(Debug, PartialEq, Eq)]
pub enum DataToStringError {
    /// The data bytes are not valid UTF-8.
    InvalidUtf8,
}

/// Failure of removing a chunk from a container.
#[derive(Debug, PartialEq, Eq)]
pub enum RemoveChunkError {
    /// No chunk of the requested type is present; holds the requested type's
    /// text.
    NotFound(String),
}

/// Failure of parsing a whole PNG buffer.
#[derive(Debug, PartialEq, Eq)]
pub enum PngFromBytesError {
    /// The buffer does not start with the 8-byte PNG signature.
    InvalidHeader,
    /// Between 1 and 3 bytes remained where the next chunk's length field was
    /// expected (an exact end of the buffer is the only clean stop).
    LengthParse,
    /// A chunk in the buffer was malformed.
    ChunkParseError(ChunkParseError),
}

impl From<ChunkTypeParseError> for ChunkParseError {
    fn from(err: ChunkTypeParseError) -> (r: ChunkParseError) {
        ChunkParseError::ChunkTypeParseError(err)
    }
}

impl vstd::std_specs::convert::FromSpecImpl<ChunkTypeParseError> for ChunkParseError {
    open spec fn obeys_from_spec() -> bool {
        true
    }

    open spec fn from_spec(err: ChunkTypeParseError) -> ChunkParseError {
        ChunkParseError::ChunkTypeParseError(err)
    }
}

impl From<ChunkParseError> for PngFromBytesError {
    fn from(err: ChunkParseError) -> (r: PngFromBytesError) {
        PngFromBytesError::ChunkParseError(err)
    }
}

impl vstd::std_specs::convert::FromSpecImpl<ChunkParseError> for PngFromBytesError {
    open spec fn obeys_from_spec() -> bool {
        true
    }

    open spec fn from_spec(err: ChunkParseError) -> PngFromBytesError {
        PngFromBytesError::ChunkParseError(err)
    }
}

/// Relies on `std::io::Error` only as an opaque carrier: the library never
/// reads or constructs one, it only lets a caller that does file reading
/// hand the failure through [`PngFromFileError`].
#[verifier::external_type_specification]
#[verifier::external_body]
pub struct ExIoError(std::io::Error);

/// Failure of loading a container from a file: either the read itself
/// failed, or the bytes read did not parse.
#[derive(Debug)]
pub enum PngFromFileError {
    /// The file could not be read.
    FileReadError(std::io::Error),
    /// The bytes read did not parse as a container.
    PngFromBytesError(PngFromBytesError),
}

impl From<std::io::Error> for PngFromFileError {
    fn from(err: std::io::Error) -> (r: PngFromFileError) {
        PngFromFileError::FileReadError(err)
    }
}

impl vstd::std_specs::convert::FromSpecImpl<std::io::Error> for PngFromFileError {
    open spec fn obeys_from_spec() -> bool {
        true
    }

    open spec fn from_spec(err: std::io::Error) -> PngFromFileError {
        PngFromFileError::FileReadError(err)
    }
}

impl From<PngFromBytesError> for PngFromFileError {
    fn from(err: PngFromBytesError) -> (r: PngFromFileError) {
        PngFromFileError::PngFromBytesError(err)
    }
}

impl vstd::std_specs::convert::FromSpecImpl<PngFromBytesError> for PngFromFileError {
    open spec fn obeys_from_spec() -> bool {
        true
    }

    open spec fn from_spec(err: PngFromBytesError) -> PngFromFileError {
        PngFromFileError::PngFromBytesError(err)
    }
}

} // verus!
