//! The errors of loading and saving a chunk.

use nbt::decode::TagDecodeError;
use vstd::prelude::*;
use vstd::std_specs::convert::FromSpecImpl;

verus! {

/// Makes `std::io::Error` known to the verifier, as a type that it does not
/// look into.
#[verifier::external_type_specification]
#[verifier::external_body]
pub struct ExIoError(std::io::Error);

/// Makes `nbt::decode::TagDecodeError` known to the verifier, as a type that
/// it does not look into.
#[verifier::external_type_specification]
#[verifier::external_body]
pub struct ExTagDecodeError(TagDecodeError);

/// Possible errors while loading a chunk.
#[derive(Debug)]
pub enum ChunkLoadError {
    /// No region file holds the chunk. The coordinates are those of the
    /// region, not of the chunk.
    RegionNotFound { region_x: i32, region_z: i32 },
    /// The slot of the chunk inside its region is empty.
    ChunkNotFound { chunk_x: u8, chunk_z: u8 },
    /// The length word of the record is larger than the sectors of the chunk
    /// can hold. The region file is corrupted.
    LengthExceedsMaximum {
        /// Length read from the record.
        length: u32,
        /// Largest length that the entry of the chunk allows.
        maximum_length: u32,
    },
    /// The record names a compression scheme other than gzip and zlib.
    UnsupportedCompressionScheme {
        /// Scheme id read from the record.
        compression_scheme: u8,
    },
    /// The region file ends before the record does.
    ReadError { io_error: std::io::Error },
    /// The payload does not decode to a compound tag.
    TagDecodeError { tag_decode_error: TagDecodeError },
}

/// Possible errors while saving a chunk.
#[derive(Debug)]
pub enum ChunkSaveError {
    /// The record is longer than a header entry can describe.
    LengthExceedsMaximum {
        /// Length of the record, length word included.
        length: u32,
    },
    /// The chunk could not be encoded, or the region file cannot grow.
    WriteError { io_error: std::io::Error },
}

impl From<std::io::Error> for ChunkLoadError {
    fn from(io_error: std::io::Error) -> (error: Self) {
        ChunkLoadError::ReadError { io_error }
    }
}

impl FromSpecImpl<std::io::Error> for ChunkLoadError {
    open spec fn obeys_from_spec() -> bool {
        true
    }

    open spec fn from_spec(io_error: std::io::Error) -> Self {
        ChunkLoadError::ReadError { io_error }
    }
}

impl From<TagDecodeError> for ChunkLoadError {
    fn from(tag_decode_error: TagDecodeError) -> (error: Self) {
        ChunkLoadError::TagDecodeError { tag_decode_error }
    }
}

impl FromSpecImpl<TagDecodeError> for ChunkLoadError {
    open spec fn obeys_from_spec() -> bool {
        true
    }

    open spec fn from_spec(tag_decode_error: TagDecodeError) -> Self {
        ChunkLoadError::TagDecodeError { tag_decode_error }
    }
}

impl From<std::io::Error> for ChunkSaveError {
    fn from(io_error: std::io::Error) -> (error: Self) {
        ChunkSaveError::WriteError { io_error }
    }
}

impl FromSpecImpl<std::io::Error> for ChunkSaveError {
    open spec fn obeys_from_spec() -> bool {
        true
    }

    open spec fn from_spec(io_error: std::io::Error) -> Self {
        ChunkSaveError::WriteError { io_error }
    }
}

/// Calls `std::io::Error::from` on `ErrorKind::UnexpectedEof`: the error
/// that `Read::read_exact` gives where a file ends too early.
#[verifier::external_body]
pub(crate) fn unexpected_eof() -> std::io::Error {
    std::io::Error::from(std::io::ErrorKind::UnexpectedEof)
}

/// Calls `std::io::Error::from` on `ErrorKind::FileTooLarge`.
#[verifier::external_body]
pub(crate) fn file_too_large() -> std::io::Error {
    std::io::Error::from(std::io::ErrorKind::FileTooLarge)
}

} // verus!
