//! The codec of chunk payloads: compound tags, compressed with zlib or gzip.

use crate::error::ChunkLoadError;
use crate::format::{GZIP_COMPRESSION_TYPE, ZLIB_COMPRESSION_TYPE};
use nbt::decode::{read_gzip_compound_tag, read_zlib_compound_tag, TagDecodeError};
use nbt::encode::write_zlib_compound_tag;
use nbt::CompoundTag;
use vstd::prelude::*;

verus! {

/// Makes `nbt::CompoundTag` known to the verifier, as a type that it does not
/// look into.
#[verifier::external_type_specification]
#[verifier::external_body]
pub struct ExCompoundTag(CompoundTag);

/// What `nbt::decode::read_gzip_compound_tag` returns on a reader over `bytes`.
pub uninterp spec fn gzip_decoded(bytes: Seq<u8>) -> Result<CompoundTag, TagDecodeError>;

/// What `nbt::decode::read_zlib_compound_tag` returns on a reader over `bytes`.
pub uninterp spec fn zlib_decoded(bytes: Seq<u8>) -> Result<CompoundTag, TagDecodeError>;

/// The bytes that `nbt::encode::write_zlib_compound_tag` writes for `tag`, or
/// `None` where it fails.
pub uninterp spec fn zlib_encoded(tag: CompoundTag) -> Option<Seq<u8>>;

/// Calls `nbt::decode::read_gzip_compound_tag` on a cursor over `bytes`. The
/// result depends on the bytes alone, and nothing more is claimed of it. The
/// decoder calls itself for every level of nested tags, so how deep a payload
/// may nest is bounded by the stack, as for every user of the decoder.
#[verifier::external_body]
pub(crate) fn decode_gzip(bytes: &[u8]) -> (tag: Result<CompoundTag, TagDecodeError>)
    ensures
        tag == gzip_decoded(bytes@),
{
    read_gzip_compound_tag(&mut std::io::Cursor::new(bytes))
}

/// Calls `nbt::decode::read_zlib_compound_tag` on a cursor over `bytes`. The
/// result depends on the bytes alone, and nothing more is claimed of it. The
/// decoder calls itself for every level of nested tags, so how deep a payload
/// may nest is bounded by the stack, as for every user of the decoder.
#[verifier::external_body]
pub(crate) fn decode_zlib(bytes: &[u8]) -> (tag: Result<CompoundTag, TagDecodeError>)
    ensures
        tag == zlib_decoded(bytes@),
{
    read_zlib_compound_tag(&mut std::io::Cursor::new(bytes))
}

/// Calls `nbt::encode::write_zlib_compound_tag` with an empty vector as the
/// writer, and returns the vector. The bytes depend on the tag alone: its
/// entries are written in the order in which they were inserted. Nothing
/// more is claimed of them.
#[verifier::external_body]
pub(crate) fn encode_zlib(tag: &CompoundTag) -> (bytes: Result<Vec<u8>, std::io::Error>)
    ensures
        match bytes {
            Ok(encoded) => zlib_encoded(*tag) == Some(encoded@),
            Err(_) => zlib_encoded(*tag) is None,
        },
{
    let mut buffer = Vec::new();
    match write_zlib_compound_tag(&mut buffer, tag) {
        Ok(()) => Ok(buffer),
        Err(io_error) => Err(io_error),
    }
}

/// What decoding a payload under a compression scheme gives: the tag, the
/// error of the decoder, or the scheme where it is neither gzip nor zlib.
pub open spec fn decoded(compression_scheme: u8, payload: Seq<u8>, result: Result<
    CompoundTag,
    ChunkLoadError,
>) -> bool {
    if compression_scheme == GZIP_COMPRESSION_TYPE {
        match gzip_decoded(payload) {
            Ok(tag) => result == Ok::<CompoundTag, ChunkLoadError>(tag),
            Err(tag_decode_error) => result == Err::<CompoundTag, ChunkLoadError>(
                ChunkLoadError::TagDecodeError { tag_decode_error },
            ),
        }
    } else if compression_scheme == ZLIB_COMPRESSION_TYPE {
        match zlib_decoded(payload) {
            Ok(tag) => result == Ok::<CompoundTag, ChunkLoadError>(tag),
            Err(tag_decode_error) => result == Err::<CompoundTag, ChunkLoadError>(
                ChunkLoadError::TagDecodeError { tag_decode_error },
            ),
        }
    } else {
        result == Err::<CompoundTag, ChunkLoadError>(
            ChunkLoadError::UnsupportedCompressionScheme { compression_scheme },
        )
    }
}

/// Decodes the payload of a record. Scheme 1 is gzip, scheme 2 is zlib, and
/// any other scheme is refused.
pub fn decode_chunk(compression_scheme: u8, payload: &[u8]) -> (result: Result<
    CompoundTag,
    ChunkLoadError,
>)
    ensures
        decoded(compression_scheme, payload@, result),
{
    if compression_scheme == GZIP_COMPRESSION_TYPE {
        match decode_gzip(payload) {
            Ok(tag) => Ok(tag),
            Err(tag_decode_error) => Err(ChunkLoadError::TagDecodeError { tag_decode_error }),
        }
    } else if compression_scheme == ZLIB_COMPRESSION_TYPE {
        match decode_zlib(payload) {
            Ok(tag) => Ok(tag),
            Err(tag_decode_error) => Err(ChunkLoadError::TagDecodeError { tag_decode_error }),
        }
    } else {
        Err(ChunkLoadError::UnsupportedCompressionScheme { compression_scheme })
    }
}

} // verus!
