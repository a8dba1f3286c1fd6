//! What holds of reading and writing chunks, stated on the model of a region.

use crate::bitmap::{
    grown, has_fit, is_first_fit, is_free_run, lemma_first_fit_none, lemma_first_fit_unique,
    lemma_no_fit_short_tail, marked, trailing_free,
};
use crate::bytes::zeros;
use crate::endian::{be_bytes, lemma_be_round_trip, word_at};
use crate::codec::decoded;
use crate::error::ChunkLoadError;
use crate::format::{
    local_of, padding_for, region_of, sectors_for, GZIP_COMPRESSION_TYPE, ZLIB_COMPRESSION_TYPE,
};
use crate::metadata::{
    header_entry, lemma_words_round_trip, parsed_header, AnvilChunkMetadata,
};
use crate::model::{
    chunk_read, in_place, lemma_placement, opened, placement, record, record_length, region_full,
    released, too_long, with_header_room, with_metadata, with_place, with_record, written,
    ChunkRead, RegionView,
};
use nbt::CompoundTag;
use vstd::prelude::*;

verus! {

/// Coordinate folding: a chunk coordinate is its region coordinate times 32
/// plus its coordinate inside the region, and no other split has a second
/// part in `0..32`. So the chunks `-32..0` lie in region `-1`, with chunk
/// `-1` at 31.
pub proof fn law_coordinates_fold(chunk: int, region: int, local: int)
    ensures
        chunk == region_of(chunk) * 32 + local_of(chunk),
        0 <= local_of(chunk) < 32,
        chunk == region * 32 + local && 0 <= local < 32 ==> region == region_of(chunk) && local
            == local_of(chunk),
{
}

/// A record is as long as the sectors that are reserved for it.
pub proof fn lemma_record_length(compression_scheme: u8, payload: Seq<u8>)
    ensures
        record(compression_scheme, payload).len() == sectors_for(record_length(payload)) * 4096,
        1 <= padding_for(record_length(payload)) <= 4096,
{
}

/// Round trip: a record that was written is the record that is read. After
/// the record of `payload` was written for the chunk in `slot`, reading that
/// chunk finds the compression scheme and the payload that were written.
pub proof fn law_read_after_write(
    region: RegionView,
    slot: int,
    compression_scheme: u8,
    payload: Seq<u8>,
    unix_seconds: int,
)
    requires
        region.wf(),
        0 <= slot < 1024,
        !too_long(payload),
        !region_full(region, slot, sectors_for(record_length(payload))),
    ensures
        ({
            let after = written(region, slot, compression_scheme, payload, unix_seconds);
            chunk_read(after.file, after.chunks_metadata[slot]) == (ChunkRead::Record {
                compression_scheme,
                payload,
            })
        }),
{
    let sectors_required = sectors_for(record_length(payload));
    let place = placement(region.used_sectors, region.chunks_metadata[slot], sectors_required);
    lemma_placement(region.used_sectors, region.chunks_metadata[slot], sectors_required);
    lemma_record_length(compression_scheme, payload);
    lemma_be_round_trip((payload.len() + 1) as u32);
    let after = written(region, slot, compression_scheme, payload, unix_seconds);
    let metadata = after.chunks_metadata[slot];
    let offset = place.sector_index * 4096;
    let bytes = record(compression_scheme, payload);
    assert(metadata.sector_index == place.sector_index);
    assert(metadata.sectors == sectors_required);
    assert(offset + bytes.len() <= after.file.len());
    assert forall|i: int| 0 <= i < bytes.len() implies after.file[offset + i] == bytes[i] by {}
    assert(after.file[offset] == bytes[0]);
    assert(after.file[offset + 1] == bytes[1]);
    assert(after.file[offset + 2] == bytes[2]);
    assert(after.file[offset + 3] == bytes[3]);
    assert(after.file[offset + 4] == bytes[4]);
    assert(word_at(after.file, offset) == payload.len() + 1);
    assert(after.file.subrange(offset + 5, offset + 5 + payload.len()) =~= payload) by {
        assert forall|i: int| 0 <= i < payload.len() implies after.file[offset + 5 + i]
            == payload[i] by {
            assert(after.file[offset + (5 + i)] == bytes[5 + i]);
        }
    }
}

/// Corruption is an error: a length word that is larger than the sectors of
/// the chunk can hold is reported with the length and the bound, whatever
/// else the file holds, and a record under a scheme other than gzip and zlib
/// is reported with its scheme, whatever its payload.
pub proof fn law_corruption_is_an_error(
    file: Seq<u8>,
    metadata: AnvilChunkMetadata,
    compression_scheme: u8,
    payload: Seq<u8>,
    result: Result<CompoundTag, ChunkLoadError>,
)
    ensures
        metadata.sectors != 0 && metadata.sector_index * 4096 + 4 <= file.len() && word_at(
            file,
            metadata.sector_index * 4096,
        ) > metadata.sectors * 4096 ==> chunk_read(file, metadata) == (ChunkRead::TooLong {
            length: word_at(file, metadata.sector_index * 4096),
            maximum_length: (metadata.sectors * 4096) as u32,
        }),
        compression_scheme != GZIP_COMPRESSION_TYPE && compression_scheme != ZLIB_COMPRESSION_TYPE
            && decoded(compression_scheme, payload, result) ==> result == Err::<
            CompoundTag,
            ChunkLoadError,
        >(ChunkLoadError::UnsupportedCompressionScheme { compression_scheme }),
{
}

/// In-place overwrite: a chunk whose sectors are as many as the new record
/// needs keeps its place. The file keeps its length, the bitmap is not
/// touched, and no byte changes outside the sectors of the chunk and the two
/// header words of its slot.
pub proof fn law_in_place_overwrite(
    region: RegionView,
    slot: int,
    compression_scheme: u8,
    payload: Seq<u8>,
    unix_seconds: int,
)
    requires
        region.wf(),
        0 <= slot < 1024,
        !too_long(payload),
        in_place(
            region.chunks_metadata[slot],
            sectors_for(record_length(payload)),
            region.used_sectors.len() as int,
        ),
    ensures
        ({
            let before = region.chunks_metadata[slot];
            let after = written(region, slot, compression_scheme, payload, unix_seconds);
            &&& !region_full(region, slot, sectors_for(record_length(payload)))
            &&& after.chunks_metadata[slot].sector_index == before.sector_index
            &&& after.chunks_metadata[slot].sectors == before.sectors
            &&& after.file.len() == region.file.len()
            &&& after.used_sectors == region.used_sectors
            &&& forall|i: int|
                0 <= i < region.file.len() && !(before.sector_index * 4096 <= i < before.end()
                    * 4096) && !(4 * slot <= i < 4 * slot + 4) && !(4096 + 4 * slot <= i < 4096
                    + 4 * slot + 4) ==> after.file[i] == region.file[i]
        }),
{
    let sectors_required = sectors_for(record_length(payload));
    lemma_placement(region.used_sectors, region.chunks_metadata[slot], sectors_required);
    lemma_record_length(compression_scheme, payload);
    lemma_be_round_trip(0);
    assert(region.file + zeros(0) =~= region.file);
}

/// Growth: where no run of free sectors is long enough for a chunk that
/// moves, the file grows by what the free run at its end lacks, in whole
/// sectors, and the record ends with the file. Every new sector is in use.
/// Of the sectors that were there, those of the record are in use, and the
/// others are as the release of the chunk left them. Where the file ended
/// in a sector in use, the bitmap is the old one, after the release, with the
/// new sectors appended.
pub proof fn law_growth(
    region: RegionView,
    slot: int,
    compression_scheme: u8,
    payload: Seq<u8>,
    unix_seconds: int,
)
    requires
        region.wf(),
        0 <= slot < 1024,
        !too_long(payload),
        !region_full(region, slot, sectors_for(record_length(payload))),
        !in_place(
            region.chunks_metadata[slot],
            sectors_for(record_length(payload)),
            region.used_sectors.len() as int,
        ),
        !has_fit(
            released(region.used_sectors, region.chunks_metadata[slot]),
            sectors_for(record_length(payload)),
        ),
    ensures
        ({
            let sectors_required = sectors_for(record_length(payload));
            let released = released(region.used_sectors, region.chunks_metadata[slot]);
            let free = trailing_free(released);
            let total = region.used_sectors.len();
            let after = written(region, slot, compression_scheme, payload, unix_seconds);
            &&& free < sectors_required
            &&& after.file.len() == region.file.len() + (sectors_required - free) * 4096
            &&& after.used_sectors.len() == total + (sectors_required - free)
            &&& after.chunks_metadata[slot].sector_index == total - free
            &&& after.chunks_metadata[slot].end() == after.used_sectors.len()
            &&& forall|sector: int| total <= sector < after.used_sectors.len()
                ==> after.used_sectors[sector]
            &&& forall|sector: int|
                0 <= sector < total ==> after.used_sectors[sector] == (released[sector] || total
                    - free <= sector)
            &&& free == 0 ==> after.used_sectors == grown(released, sectors_required)
        }),
{
    let sectors_required = sectors_for(record_length(payload));
    let released = released(region.used_sectors, region.chunks_metadata[slot]);
    lemma_placement(region.used_sectors, region.chunks_metadata[slot], sectors_required);
    lemma_no_fit_short_tail(released, sectors_required);
    lemma_first_fit_none(released, sectors_required);
    let after = written(region, slot, compression_scheme, payload, unix_seconds);
    if trailing_free(released) == 0 {
        assert(after.used_sectors =~= grown(released, sectors_required));
    }
}

/// Gap reuse: where a run of free sectors is long enough for a chunk that
/// moves, and no run that starts earlier is, the record goes to the start of
/// that run. The file keeps its length, and the bitmap changes in the
/// sectors of the record only, which are then in use.
pub proof fn law_gap_reuse(
    region: RegionView,
    slot: int,
    compression_scheme: u8,
    payload: Seq<u8>,
    unix_seconds: int,
    gap: int,
    gap_sectors: int,
)
    requires
        region.wf(),
        0 <= slot < 1024,
        !too_long(payload),
        !region_full(region, slot, sectors_for(record_length(payload))),
        !in_place(
            region.chunks_metadata[slot],
            sectors_for(record_length(payload)),
            region.used_sectors.len() as int,
        ),
        sectors_for(record_length(payload)) <= gap_sectors,
        is_free_run(released(region.used_sectors, region.chunks_metadata[slot]), gap, gap_sectors),
        forall|earlier: int|
            0 <= earlier < gap ==> !is_free_run(
                released(region.used_sectors, region.chunks_metadata[slot]),
                earlier,
                sectors_for(record_length(payload)),
            ),
    ensures
        ({
            let sectors_required = sectors_for(record_length(payload));
            let released = released(region.used_sectors, region.chunks_metadata[slot]);
            let after = written(region, slot, compression_scheme, payload, unix_seconds);
            &&& after.chunks_metadata[slot].sector_index == gap
            &&& after.file.len() == region.file.len()
            &&& after.used_sectors == marked(released, gap, sectors_required, true)
        }),
{
    let sectors_required = sectors_for(record_length(payload));
    let released = released(region.used_sectors, region.chunks_metadata[slot]);
    assert(is_free_run(released, gap, sectors_required));
    assert(is_first_fit(released, gap, sectors_required));
    lemma_first_fit_unique(released, gap, sectors_required);
    lemma_placement(region.used_sectors, region.chunks_metadata[slot], sectors_required);
    assert(region.file + zeros(0) =~= region.file);
}

/// The file never shrinks: a write leaves its length or adds whole sectors,
/// and every byte in front of the record and outside the two header words of
/// the slot stays as it was.
pub proof fn law_file_only_grows(
    region: RegionView,
    slot: int,
    compression_scheme: u8,
    payload: Seq<u8>,
    unix_seconds: int,
)
    requires
        region.wf(),
        0 <= slot < 1024,
        !too_long(payload),
        !region_full(region, slot, sectors_for(record_length(payload))),
    ensures
        ({
            let sectors_required = sectors_for(record_length(payload));
            let place = placement(
                region.used_sectors,
                region.chunks_metadata[slot],
                sectors_required,
            );
            let after = written(region, slot, compression_scheme, payload, unix_seconds);
            &&& after.file.len() == region.file.len() + place.additional * 4096
            &&& 0 <= place.additional <= sectors_required
            &&& forall|i: int|
                0 <= i < region.file.len() && !(place.sector_index * 4096 <= i < (
                place.sector_index + sectors_required) * 4096) && !(4 * slot <= i < 4 * slot + 4)
                    && !(4096 + 4 * slot <= i < 4096 + 4 * slot + 4) ==> after.file[i]
                    == region.file[i]
        }),
{
    let sectors_required = sectors_for(record_length(payload));
    lemma_placement(region.used_sectors, region.chunks_metadata[slot], sectors_required);
    lemma_record_length(compression_scheme, payload);
    lemma_be_round_trip(0);
}

/// The header in memory is the header in the file.
pub open spec fn header_mirrors_file(region: RegionView) -> bool {
    region.chunks_metadata == parsed_header(region.file)
}

/// An entry that is made the entry of a slot is the entry that the file then
/// holds for that slot, where its sector index fits in 24 bits. The entries
/// of the other slots are as they were.
pub proof fn law_metadata_persists(region: RegionView, slot: int, metadata: AnvilChunkMetadata)
    requires
        region.wf(),
        0 <= slot < 1024,
        metadata.sector_index < 0x100_0000,
    ensures
        header_entry(with_metadata(region, slot, metadata).file, slot) == metadata,
        forall|other: int|
            0 <= other < 1024 && other != slot ==> header_entry(
                with_metadata(region, slot, metadata).file,
                other,
            ) == header_entry(region.file, other),
        header_mirrors_file(region) ==> header_mirrors_file(with_metadata(region, slot, metadata)),
{
    let after = with_metadata(region, slot, metadata);
    lemma_be_round_trip(metadata.offset_word());
    lemma_be_round_trip(metadata.last_modified_timestamp);
    lemma_words_round_trip(metadata);
    let offset_bytes = be_bytes(metadata.offset_word());
    let timestamp_bytes = be_bytes(metadata.last_modified_timestamp);
    assert(after.file[4 * slot] == offset_bytes[0]);
    assert(after.file[4 * slot + 1] == offset_bytes[1]);
    assert(after.file[4 * slot + 2] == offset_bytes[2]);
    assert(after.file[4 * slot + 3] == offset_bytes[3]);
    assert(after.file[4096 + 4 * slot] == timestamp_bytes[0]);
    assert(after.file[4096 + 4 * slot + 1] == timestamp_bytes[1]);
    assert(after.file[4096 + 4 * slot + 2] == timestamp_bytes[2]);
    assert(after.file[4096 + 4 * slot + 3] == timestamp_bytes[3]);
    assert(word_at(after.file, 4 * slot) == metadata.offset_word());
    assert(word_at(after.file, 4096 + 4 * slot) == metadata.last_modified_timestamp);
    assert forall|other: int| 0 <= other < 1024 && other != slot implies header_entry(
        after.file,
        other,
    ) == header_entry(region.file, other) by {
        assert(after.file[4 * other] == region.file[4 * other]);
        assert(after.file[4 * other + 1] == region.file[4 * other + 1]);
        assert(after.file[4 * other + 2] == region.file[4 * other + 2]);
        assert(after.file[4 * other + 3] == region.file[4 * other + 3]);
        assert(after.file[4096 + 4 * other] == region.file[4096 + 4 * other]);
        assert(after.file[4096 + 4 * other + 1] == region.file[4096 + 4 * other + 1]);
        assert(after.file[4096 + 4 * other + 2] == region.file[4096 + 4 * other + 2]);
        assert(after.file[4096 + 4 * other + 3] == region.file[4096 + 4 * other + 3]);
    }
    if header_mirrors_file(region) {
        assert(after.chunks_metadata =~= parsed_header(after.file));
    }
}

/// Opening a file gives a region that meets the invariant, with the header
/// of the file as its header.
pub proof fn lemma_opened(file: Seq<u8>)
    ensures
        opened(file).wf(),
        header_mirrors_file(opened(file)),
        file.len() >= 8192 ==> opened(file).file == file,
{
    let region = opened(file);
    assert(region.used_sectors[0]);
    assert(region.used_sectors[1]);
}

/// Round trip over the file: a record that was saved is the record that is
/// loaded from the file that the save gave. After the record of `payload`
/// was written for the chunk in `slot` of the region that `file` holds,
/// opening the file of that region and reading the chunk finds the
/// compression scheme and the payload that were written.
pub proof fn law_load_after_save(
    file: Seq<u8>,
    slot: int,
    compression_scheme: u8,
    payload: Seq<u8>,
    unix_seconds: int,
)
    requires
        0 <= slot < 1024,
        !too_long(payload),
        !region_full(opened(file), slot, sectors_for(record_length(payload))),
    ensures
        ({
            let saved = written(opened(file), slot, compression_scheme, payload, unix_seconds);
            let loaded = opened(saved.file);
            &&& loaded.file == saved.file
            &&& loaded.chunks_metadata[slot] == saved.chunks_metadata[slot]
            &&& chunk_read(loaded.file, loaded.chunks_metadata[slot]) == (ChunkRead::Record {
                compression_scheme,
                payload,
            })
        }),
{
    let region = opened(file);
    let sectors_required = sectors_for(record_length(payload));
    let place = placement(region.used_sectors, region.chunks_metadata[slot], sectors_required);
    let placed = with_place(region, slot, sectors_required);
    let saved = written(region, slot, compression_scheme, payload, unix_seconds);
    let entry = saved.chunks_metadata[slot];
    lemma_opened(file);
    lemma_placement(region.used_sectors, region.chunks_metadata[slot], sectors_required);
    law_read_after_write(region, slot, compression_scheme, payload, unix_seconds);
    assert(entry.sector_index == place.sector_index);
    assert(entry.sector_index < 0x100_0000) by {
        let total = region.used_sectors.len() as int;
        if in_place(region.chunks_metadata[slot], sectors_required, total) {
            assert(region.chunks_metadata[slot] == header_entry(region.file, slot));
        }
    }
    let recorded = with_record(placed, place.sector_index, compression_scheme, payload);
    assert(recorded.wf());
    law_metadata_persists(recorded, slot, entry);
    assert(saved == with_metadata(recorded, slot, entry));
    lemma_opened(saved.file);
    assert(with_header_room(saved.file) == saved.file);
}

} // verus!
