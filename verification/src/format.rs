//! Layout constants of a region file and the arithmetic that maps chunk
//! coordinates and record lengths onto it.

use vstd::prelude::*;

verus! {

/// Number of chunk slots in a region.
pub const REGION_CHUNKS: usize = 1024;

/// Number of 32-bit words in the header: one offset word and one timestamp
/// word for each slot.
pub const REGION_CHUNKS_METADATA_LENGTH: usize = 2048;

/// Length of the header in bytes.
pub const REGION_HEADER_BYTES_LENGTH: u64 = 8192;

/// Length of a sector in bytes.
pub const REGION_SECTOR_BYTES_LENGTH: u16 = 4096;

/// Upper bound of a chunk record in bytes, length word included.
pub const CHUNK_MAXIMUM_BYTES_LENGTH: u32 = 1048576;

/// Largest number of sectors that a header entry can count.
pub const CHUNK_MAXIMUM_SECTORS: u32 = 255;

/// Number of sectors that an offset word can address.
pub const REGION_MAXIMUM_SECTORS: usize = 16777216;

/// Compression scheme id of gzip.
pub const GZIP_COMPRESSION_TYPE: u8 = 1;

/// Compression scheme id of zlib.
pub const ZLIB_COMPRESSION_TYPE: u8 = 2;

/// Region coordinate of a chunk coordinate: the quotient by 32, rounded
/// towards negative infinity.
pub open spec fn region_of(chunk: int) -> int {
    chunk / 32
}

/// Coordinate of a chunk inside its region: the remainder by 32, never
/// negative.
pub open spec fn local_of(chunk: int) -> int {
    chunk % 32
}

/// Header slot of the chunk at local coordinates `(chunk_x, chunk_z)`.
pub open spec fn slot_of(chunk_x: int, chunk_z: int) -> int {
    chunk_x + chunk_z * 32
}

/// Number of sectors reserved for a record of `length` bytes. One sector more
/// than the quotient, also where `length` is a multiple of the sector length.
pub open spec fn sectors_for(length: int) -> int {
    length / 4096 + 1
}

/// Number of zero bytes that follow a record of `length` bytes, so that it
/// ends on a sector boundary. Between 1 and 4096.
pub open spec fn padding_for(length: int) -> int {
    4096 - length % 4096
}

/// Region coordinate of the chunk coordinate `chunk`.
pub fn region_coordinate(chunk: i32) -> (region: i32)
    ensures
        region == region_of(chunk as int),
        region * 32 <= chunk < region * 32 + 32,
{
    assert((chunk >> 5u32) == chunk / 32) by (bit_vector);
    chunk >> 5
}

/// Coordinate of the chunk coordinate `chunk` inside its region.
pub fn region_chunk_coordinate(chunk: i32) -> (local: u8)
    ensures
        local == local_of(chunk as int),
        local < 32,
{
    assert((chunk & 31) == chunk % 32) by (bit_vector);
    assert(0 <= (chunk & 31) < 32) by (bit_vector);
    (chunk & 31) as u8
}

/// Number of sectors reserved for a record of `chunk_length` bytes.
pub fn sectors_required(chunk_length: u32) -> (sectors: u32)
    ensures
        sectors == sectors_for(chunk_length as int),
        sectors >= 1,
        chunk_length < sectors * 4096 <= chunk_length + 4096,
{
    chunk_length / 4096 + 1
}

} // verus!
