//! The mathematical model of a region: the bytes of its file, its header and
//! its sector bitmap, and what reading and writing a chunk mean on them.

use crate::bitmap::{
    first_fit, grown, has_fit, is_free_run, lemma_first_fit_some, lemma_free_run_before,
    lemma_no_fit_short_tail, marked, trailing_free, used_sectors_of,
};
use crate::bytes::{splice, zeros};
use crate::endian::{be_bytes, word_at};
use crate::format::{
    padding_for, sectors_for, CHUNK_MAXIMUM_BYTES_LENGTH, CHUNK_MAXIMUM_SECTORS,
    REGION_MAXIMUM_SECTORS,
};
use crate::metadata::{parsed_header, AnvilChunkMetadata};
use vstd::prelude::*;

verus! {

/// A region as the contracts see it.
pub struct RegionView {
    /// The bytes of the region file.
    pub file: Seq<u8>,
    /// The header entries, by slot.
    pub chunks_metadata: Seq<AnvilChunkMetadata>,
    /// The sector bitmap: `true` marks a sector in use.
    pub used_sectors: Seq<bool>,
}

/// `file`, extended with zero bytes where it is shorter than the header.
pub open spec fn with_header_room(file: Seq<u8>) -> Seq<u8> {
    if file.len() < 8192 {
        file + zeros(8192 - file.len())
    } else {
        file
    }
}

/// The region that opening `file` gives. A file shorter than the header is
/// extended with zero bytes to the length of the header. The entries are
/// those of the header, and the sectors in use are the two of the header and
/// those of the entries.
pub open spec fn opened(file: Seq<u8>) -> RegionView {
    let file = with_header_room(file);
    RegionView {
        file,
        chunks_metadata: parsed_header(file),
        used_sectors: used_sectors_of((file.len() / 4096) as int, parsed_header(file)),
    }
}

impl RegionView {
    /// The invariant of a region: the header has 1024 entries and lies
    /// inside the file, the bitmap has one bit for each whole sector of the
    /// file, and the two sectors of the header are in use.
    pub open spec fn wf(self) -> bool {
        &&& self.chunks_metadata.len() == 1024
        &&& self.file.len() >= 8192
        &&& self.used_sectors.len() == self.file.len() / 4096
        &&& self.used_sectors[0]
        &&& self.used_sectors[1]
    }
}

/// What reading the record of a chunk finds.
pub enum ChunkRead {
    /// The slot is empty.
    NotFound,
    /// The file ends before the record does.
    Truncated,
    /// The length word is larger than the sectors of the chunk can hold.
    TooLong { length: u32, maximum_length: u32 },
    /// The record: its compression scheme and its payload.
    Record { compression_scheme: u8, payload: Seq<u8> },
}

/// Largest length word that the entry of a chunk allows: the bytes of its
/// sectors, and 256 sectors at most.
pub open spec fn maximum_length(metadata: AnvilChunkMetadata) -> int {
    if metadata.sectors * 4096 < CHUNK_MAXIMUM_BYTES_LENGTH {
        metadata.sectors * 4096
    } else {
        CHUNK_MAXIMUM_BYTES_LENGTH as int
    }
}

/// Number of payload bytes behind the scheme byte of a record with length
/// word `length`.
pub open spec fn payload_length(length: int) -> int {
    if length == 0 {
        0
    } else {
        length - 1
    }
}

/// Reads the record that `metadata` points to in `file`: the length word at
/// the start of the first sector, then the scheme byte, then the payload.
pub open spec fn chunk_read(file: Seq<u8>, metadata: AnvilChunkMetadata) -> ChunkRead {
    let offset = metadata.sector_index * 4096;
    let length = word_at(file, offset);
    if metadata.sectors == 0 {
        ChunkRead::NotFound
    } else if offset + 4 > file.len() {
        ChunkRead::Truncated
    } else if length > maximum_length(metadata) {
        ChunkRead::TooLong { length, maximum_length: maximum_length(metadata) as u32 }
    } else if offset + 5 + payload_length(length as int) > file.len() {
        ChunkRead::Truncated
    } else {
        ChunkRead::Record {
            compression_scheme: file[offset + 4],
            payload: file.subrange(offset + 5, offset + 5 + payload_length(length as int)),
        }
    }
}

/// Length of the record of a payload: length word, scheme byte and payload.
pub open spec fn record_length(payload: Seq<u8>) -> int {
    (payload.len() + 5) as int
}

/// The bytes of a record: the length of scheme byte and payload as a
/// big-endian word, the scheme byte, the payload, and zero bytes up to the
/// next sector boundary.
pub open spec fn record(compression_scheme: u8, payload: Seq<u8>) -> Seq<u8> {
    be_bytes((payload.len() + 1) as u32) + seq![compression_scheme] + payload + zeros(
        padding_for(record_length(payload)),
    )
}

/// Whether a record is too long for a header entry, which counts 255
/// sectors at most.
pub open spec fn too_long(payload: Seq<u8>) -> bool {
    sectors_for(record_length(payload)) > CHUNK_MAXIMUM_SECTORS
}

/// Where a record goes, and what the bitmap is after it went there.
pub struct Placement {
    /// First sector of the record.
    pub sector_index: int,
    /// Number of sectors appended to the file.
    pub additional: int,
    /// The bitmap after the placement.
    pub used_sectors: Seq<bool>,
}

/// Whether a chunk with the entry `metadata` is overwritten where it lies:
/// it has the number of sectors that the new record needs, and they lie
/// inside the file, behind the header.
pub open spec fn in_place(metadata: AnvilChunkMetadata, sectors_required: int, total_sectors: int)
    -> bool {
    &&& metadata.sectors == sectors_required
    &&& 2 <= metadata.sector_index
    &&& metadata.end() <= total_sectors
}

/// The bitmap after the chunk with the entry `metadata` gave up its sectors.
pub open spec fn released(used_sectors: Seq<bool>, metadata: AnvilChunkMetadata) -> Seq<bool> {
    marked(used_sectors, metadata.sector_index as int, metadata.sectors as int, false)
}

/// Places a record of `sectors_required` sectors for a chunk with the entry
/// `metadata`. A chunk that has that many sectors keeps them. Otherwise its
/// sectors are released, and the record goes to the first run of free sectors
/// that is long enough. Where there is none, the file grows by what the run
/// of free sectors at its end lacks, and the record goes to the new end.
pub open spec fn placement(
    used_sectors: Seq<bool>,
    metadata: AnvilChunkMetadata,
    sectors_required: int,
) -> Placement {
    let released = released(used_sectors, metadata);
    let free = trailing_free(released) as int;
    if in_place(metadata, sectors_required, used_sectors.len() as int) {
        Placement { sector_index: metadata.sector_index as int, additional: 0, used_sectors }
    } else {
        match first_fit(released, sectors_required) {
            Some(start) => Placement {
                sector_index: start,
                additional: 0,
                used_sectors: marked(released, start, sectors_required, true),
            },
            None => Placement {
                sector_index: used_sectors.len() - free,
                additional: sectors_required - free,
                used_sectors: marked(
                    grown(released, sectors_required - free),
                    used_sectors.len() - free,
                    sectors_required,
                    true,
                ),
            },
        }
    }
}

/// Whether a chunk that must move finds the region too close to its limits:
/// the sector count that an offset word can address, and the file length
/// that the machine can.
pub open spec fn region_full(region: RegionView, slot: int, sectors_required: int) -> bool {
    &&& !in_place(
        region.chunks_metadata[slot],
        sectors_required,
        region.used_sectors.len() as int,
    )
    &&& (region.used_sectors.len() + sectors_required > REGION_MAXIMUM_SECTORS
        || region.file.len() + sectors_required * 4096 > usize::MAX)
}

/// The entry of a chunk after a record of `sectors_required` sectors was
/// placed for it. A chunk that kept its sectors keeps its timestamp too.
pub open spec fn placed_metadata(
    used_sectors: Seq<bool>,
    metadata: AnvilChunkMetadata,
    sectors_required: int,
) -> AnvilChunkMetadata {
    if in_place(metadata, sectors_required, used_sectors.len() as int) {
        metadata
    } else {
        AnvilChunkMetadata {
            sector_index: placement(used_sectors, metadata, sectors_required).sector_index as u32,
            sectors: sectors_required as u8,
            last_modified_timestamp: 0,
        }
    }
}

/// The region after a place was found for a record of `sectors_required`
/// sectors of the chunk in `slot`: the bitmap follows the placement, and the
/// file has grown by the sectors that it appended, filled with zero bytes.
pub open spec fn with_place(region: RegionView, slot: int, sectors_required: int) -> RegionView {
    let place = placement(region.used_sectors, region.chunks_metadata[slot], sectors_required);
    RegionView {
        file: region.file + zeros(place.additional * 4096),
        chunks_metadata: region.chunks_metadata,
        used_sectors: place.used_sectors,
    }
}

/// The region after `metadata` became the entry of `slot`: the entry in
/// memory changes, and so do its two words in the file, the offset word in
/// the first sector and the timestamp word in the second.
pub open spec fn with_metadata(region: RegionView, slot: int, metadata: AnvilChunkMetadata)
    -> RegionView {
    RegionView {
        file: splice(
            splice(region.file, 4 * slot, be_bytes(metadata.offset_word())),
            4096 + 4 * slot,
            be_bytes(metadata.last_modified_timestamp),
        ),
        chunks_metadata: region.chunks_metadata.update(slot, metadata),
        used_sectors: region.used_sectors,
    }
}

/// The region after the record of `payload` was written into its file from
/// the sector `sector_index` on.
pub open spec fn with_record(
    region: RegionView,
    sector_index: int,
    compression_scheme: u8,
    payload: Seq<u8>,
) -> RegionView {
    RegionView {
        file: splice(region.file, sector_index * 4096, record(compression_scheme, payload)),
        chunks_metadata: region.chunks_metadata,
        used_sectors: region.used_sectors,
    }
}

/// The region after the record of `payload` was written for the chunk in
/// `slot` at the time `unix_seconds`: a place is found for the record, the
/// record is written there, and the entry of the chunk then names the place,
/// the sectors of the record and the time, cut to 32 bits.
pub open spec fn written(
    region: RegionView,
    slot: int,
    compression_scheme: u8,
    payload: Seq<u8>,
    unix_seconds: int,
) -> RegionView {
    let sectors_required = sectors_for(record_length(payload));
    let place = placement(region.used_sectors, region.chunks_metadata[slot], sectors_required);
    let metadata = AnvilChunkMetadata {
        sector_index: place.sector_index as u32,
        sectors: sectors_required as u8,
        last_modified_timestamp: (unix_seconds % 0x1_0000_0000) as u32,
    };
    with_metadata(
        with_record(
            with_place(region, slot, sectors_required),
            place.sector_index,
            compression_scheme,
            payload,
        ),
        slot,
        metadata,
    )
}

/// A record is placed behind the header and inside the file as it is after
/// the placement. The file grows by no more than the record needs, and where
/// it grows the record ends with it. The bitmap follows the file, keeps the
/// two sectors of the header in use, and marks every sector of a record that
/// moved.
pub proof fn lemma_placement(
    used_sectors: Seq<bool>,
    metadata: AnvilChunkMetadata,
    sectors_required: int,
)
    requires
        used_sectors.len() >= 2,
        used_sectors[0],
        used_sectors[1],
        sectors_required >= 1,
    ensures
        ({
            let place = placement(used_sectors, metadata, sectors_required);
            &&& 2 <= place.sector_index
            &&& 0 <= place.additional <= sectors_required
            &&& place.sector_index + sectors_required <= used_sectors.len() + place.additional
            &&& place.used_sectors.len() == used_sectors.len() + place.additional
            &&& place.used_sectors[0]
            &&& place.used_sectors[1]
            &&& place.additional > 0 ==> place.sector_index + sectors_required
                == place.used_sectors.len()
            &&& !in_place(metadata, sectors_required, used_sectors.len() as int) ==> forall|
                sector: int,
            |
                place.sector_index <= sector < place.sector_index + sectors_required
                    ==> place.used_sectors[sector]
        }),
{
    let released = released(used_sectors, metadata);
    assert(released[0] && released[1]);
    if !in_place(metadata, sectors_required, used_sectors.len() as int) {
        if has_fit(released, sectors_required) {
            lemma_first_fit_some(released, sectors_required);
            let start = first_fit(released, sectors_required)->Some_0;
            assert(is_free_run(released, start, sectors_required));
            if start < 2 {
                assert(!released[1]);
                assert(!released[0]);
            }
        } else {
            lemma_no_fit_short_tail(released, sectors_required);
            lemma_free_run_before(released, released.len() as int);
            let free = trailing_free(released) as int;
            assert(is_free_run(released, released.len() - free, free));
            if released.len() - free < 2 {
                assert(!released[1]);
            }
        }
    }
}

} // verus!
