//! The invariant of the data in a region: the chunks lie behind the header,
//! inside the file and apart from each other, and the region in memory is
//! what its file holds. Writing a chunk keeps it.

use crate::bitmap::{
    has_fit, in_use_by, is_free_run, lemma_first_fit_none, lemma_first_fit_some,
    lemma_free_run_before, trailing_free, used_sectors_of,
};
use crate::bytes::zeros;
use crate::endian::{lemma_be_round_trip, word_at};
use crate::format::sectors_for;
use crate::laws::{
    header_mirrors_file, law_file_only_grows, law_metadata_persists, lemma_record_length,
};
use crate::metadata::{header_entry, parsed_header, AnvilChunkMetadata};
use crate::model::{
    chunk_read, in_place, lemma_placement, opened, placement, record, record_length, region_full,
    released, too_long, with_header_room, with_place, with_record, written, RegionView,
};
use vstd::prelude::*;

verus! {

/// Whether every chunk of `header` lies behind the two sectors of the header
/// and inside a file of `total_sectors` sectors.
pub open spec fn chunks_inside(header: Seq<AnvilChunkMetadata>, total_sectors: int) -> bool {
    forall|slot: int|
        0 <= slot < header.len() && (#[trigger] header[slot]).sectors != 0 ==> 2
            <= header[slot].sector_index && header[slot].end() <= total_sectors
}

/// Whether no sector belongs to two chunks of `header`.
pub open spec fn chunks_apart(header: Seq<AnvilChunkMetadata>) -> bool {
    forall|one: int, other: int, sector: int|
        0 <= one < header.len() && 0 <= other < header.len() && one != other
            && #[trigger] header[one].covers(sector) ==> !#[trigger] header[other].covers(sector)
}

/// The invariant of the data in a region. Header and bitmap in memory are
/// those that opening the file gives, so a sector is in use exactly where it
/// belongs to the header or to a chunk. The chunks lie behind the header,
/// inside the file, and no two of them share a sector.
pub open spec fn consistent(region: RegionView) -> bool {
    &&& region.wf()
    &&& region == opened(region.file)
    &&& chunks_inside(region.chunks_metadata, region.used_sectors.len() as int)
    &&& chunks_apart(region.chunks_metadata)
}

/// The header of a file is in its first two sectors.
pub proof fn lemma_header_in_first_sectors(file: Seq<u8>, other: Seq<u8>)
    requires
        file.len() >= 8192,
        other.len() >= 8192,
        forall|i: int| 0 <= i < 8192 ==> file[i] == other[i],
    ensures
        parsed_header(file) == parsed_header(other),
{
    assert forall|slot: int| 0 <= slot < 1024 implies header_entry(file, slot) == header_entry(
        other,
        slot,
    ) by {
        assert(file[4 * slot] == other[4 * slot]);
        assert(file[4 * slot + 1] == other[4 * slot + 1]);
        assert(file[4 * slot + 2] == other[4 * slot + 2]);
        assert(file[4 * slot + 3] == other[4 * slot + 3]);
        assert(file[4096 + 4 * slot] == other[4096 + 4 * slot]);
        assert(file[4096 + 4 * slot + 1] == other[4096 + 4 * slot + 1]);
        assert(file[4096 + 4 * slot + 2] == other[4096 + 4 * slot + 2]);
        assert(file[4096 + 4 * slot + 3] == other[4096 + 4 * slot + 3]);
    }
    assert(parsed_header(file) =~= parsed_header(other));
}

/// A region over an empty file is consistent: it has the header and no
/// chunk.
pub proof fn law_fresh_region_is_consistent()
    ensures
        consistent(opened(Seq::<u8>::empty())),
        opened(Seq::<u8>::empty()).file == zeros(8192),
        opened(Seq::<u8>::empty()).used_sectors == seq![true, true],
{
    let region = opened(Seq::<u8>::empty());
    assert(region.file =~= zeros(8192));
    assert forall|slot: int| 0 <= slot < 1024 implies (
    #[trigger] region.chunks_metadata[slot]).sectors == 0 by {
        assert(region.file[4 * slot + 3] == 0);
        assert(region.file[4 * slot] == 0);
        assert(region.file[4 * slot + 1] == 0);
        assert(region.file[4 * slot + 2] == 0);
    }
    assert(region.used_sectors =~= seq![true, true]) by {
        assert forall|sector: int| 0 <= sector < 2 implies region.used_sectors[sector] by {}
    }
    assert(with_header_room(region.file) == region.file);
}

/// After the chunk in `slot` gave up its sectors, a sector is in use exactly
/// where it belongs to the header or to another chunk.
pub proof fn lemma_released_is_the_others(region: RegionView, slot: int, sector: int)
    requires
        consistent(region),
        0 <= slot < 1024,
        0 <= sector < region.used_sectors.len(),
    ensures
        released(region.used_sectors, region.chunks_metadata[slot])[sector] == (sector < 2
            || exists|other: int|
            0 <= other < 1024 && other != slot
                && #[trigger] region.chunks_metadata[other].covers(sector)),
{
    let header = region.chunks_metadata;
    let old = header[slot];
    assert(region.used_sectors[sector] == in_use_by(header, 1024, sector));
    if old.covers(sector) {
        assert(old.sectors != 0);
        assert(sector >= 2);
        if exists|other: int|
            0 <= other < 1024 && other != slot && #[trigger] header[other].covers(sector) {
            let other = choose|other: int|
                0 <= other < 1024 && other != slot && #[trigger] header[other].covers(sector);
            assert(header[slot].covers(sector));
            assert(!header[other].covers(sector));
        }
    } else {
        if region.used_sectors[sector] && sector >= 2 {
            let owner = choose|owner: int|
                0 <= owner < 1024 && #[trigger] header[owner].covers(sector);
            assert(owner != slot);
        }
    }
}

/// Writing a chunk keeps the region consistent.
pub proof fn law_write_keeps_consistent(
    region: RegionView,
    slot: int,
    compression_scheme: u8,
    payload: Seq<u8>,
    unix_seconds: int,
)
    requires
        consistent(region),
        0 <= slot < 1024,
        !too_long(payload),
        !region_full(region, slot, sectors_for(record_length(payload))),
    ensures
        consistent(written(region, slot, compression_scheme, payload, unix_seconds)),
{
    let sectors_required = sectors_for(record_length(payload));
    let header = region.chunks_metadata;
    let old = header[slot];
    let total = region.used_sectors.len() as int;
    let place = placement(region.used_sectors, old, sectors_required);
    let placed = with_place(region, slot, sectors_required);
    let after = written(region, slot, compression_scheme, payload, unix_seconds);
    let entry = after.chunks_metadata[slot];
    let moved = !in_place(old, sectors_required, total);
    let freed = released(region.used_sectors, old);
    lemma_placement(region.used_sectors, old, sectors_required);
    lemma_record_length(compression_scheme, payload);
    assert(entry.sector_index == place.sector_index);
    assert(entry.sectors == sectors_required);
    assert(after.used_sectors.len() == total + place.additional);
    assert(after.file.len() == region.file.len() + place.additional * 4096);
    assert(after.wf());

    // The sectors of the record belonged to no other chunk.
    assert forall|other: int, sector: int|
        0 <= other < 1024 && other != slot && entry.covers(sector) implies !(
    #[trigger] header[other].covers(sector)) by {
        if header[other].covers(sector) {
            assert(header[other].sectors != 0);
            assert(sector < total);
            if moved {
                lemma_released_is_the_others(region, slot, sector);
                if has_fit(freed, sectors_required) {
                    lemma_first_fit_some(freed, sectors_required);
                    assert(is_free_run(freed, place.sector_index, sectors_required));
                    assert(!freed[sector]);
                } else {
                    lemma_first_fit_none(freed, sectors_required);
                    lemma_free_run_before(freed, total);
                    assert(is_free_run(
                        freed,
                        total - trailing_free(freed),
                        trailing_free(freed) as int,
                    ));
                    assert(!freed[sector]);
                }
            } else {
                assert(header[slot].covers(sector));
            }
        }
    }

    assert(chunks_inside(after.chunks_metadata, after.used_sectors.len() as int)) by {
        assert forall|k: int|
            0 <= k < 1024 && (#[trigger] after.chunks_metadata[k]).sectors != 0 implies 2
            <= after.chunks_metadata[k].sector_index && after.chunks_metadata[k].end()
            <= after.used_sectors.len() by {
            if k != slot {
                assert(after.chunks_metadata[k] == header[k]);
            }
        }
    }

    assert(chunks_apart(after.chunks_metadata)) by {
        assert forall|one: int, other: int, sector: int|
            0 <= one < 1024 && 0 <= other < 1024 && one != other
                && #[trigger] after.chunks_metadata[one].covers(sector) implies !(
        #[trigger] after.chunks_metadata[other].covers(sector)) by {
            if one != slot {
                assert(after.chunks_metadata[one] == header[one]);
            }
            if other != slot {
                assert(after.chunks_metadata[other] == header[other]);
            }
            if one != slot && other != slot {
                assert(header[one].covers(sector));
            }
        }
    }

    // The header in the file is the header in memory.
    assert(after.chunks_metadata == parsed_header(after.file)) by {
        let recorded = with_record(placed, place.sector_index, compression_scheme, payload);
        lemma_header_in_first_sectors(region.file, recorded.file);
        assert(header == parsed_header(region.file));
        assert(header_mirrors_file(recorded));
        assert(entry.sector_index < 0x100_0000) by {
            if !moved {
                assert(old == header_entry(region.file, slot));
            }
        }
        law_metadata_persists(recorded, slot, entry);
    }

    // The bitmap is the bitmap of the header.
    assert(after.used_sectors =~= used_sectors_of(
        after.used_sectors.len() as int,
        after.chunks_metadata,
    )) by {
        let bitmap = after.used_sectors;
        assert forall|sector: int| 0 <= sector < bitmap.len() implies bitmap[sector]
            == in_use_by(after.chunks_metadata, 1024, sector) by {
            if sector < total {
                lemma_released_is_the_others(region, slot, sector);
            }
            if moved {
                if has_fit(freed, sectors_required) {
                    lemma_first_fit_some(freed, sectors_required);
                } else {
                    lemma_first_fit_none(freed, sectors_required);
                }
                assert(after.used_sectors[sector] == ((sector < total && freed[sector])
                    || entry.covers(sector)));
            } else {
                assert(after.used_sectors[sector] == region.used_sectors[sector]);
                assert(entry.covers(sector) == old.covers(sector));
                assert(region.used_sectors[sector] == in_use_by(header, 1024, sector));
            }
            if entry.covers(sector) {
                assert(after.chunks_metadata[slot].covers(sector));
            }
            if sector >= 2 && in_use_by(after.chunks_metadata, 1024, sector) {
                let owner = choose|owner: int|
                    0 <= owner < 1024 && #[trigger] after.chunks_metadata[owner].covers(sector);
                if owner != slot {
                    assert(after.chunks_metadata[owner] == header[owner]);
                    assert(header[owner].covers(sector));
                    assert(sector < total);
                }
            }
            if sector < total && sector >= 2 && exists|other: int|
                0 <= other < 1024 && other != slot && #[trigger] header[other].covers(sector) {
                let other = choose|other: int|
                    0 <= other < 1024 && other != slot && #[trigger] header[other].covers(sector);
                assert(after.chunks_metadata[other] == header[other]);
                assert(after.chunks_metadata[other].covers(sector));
            }
        }
    }
    assert(with_header_room(after.file) == after.file);
    assert(after.used_sectors.len() == after.file.len() / 4096);
    assert(after == opened(after.file));
}

/// Whether the record of the chunk with the entry `metadata` ends inside the
/// sectors of the chunk. A record that this engine wrote does.
pub open spec fn record_inside(file: Seq<u8>, metadata: AnvilChunkMetadata) -> bool {
    metadata.sectors != 0 ==> word_at(file, metadata.sector_index * 4096) + 4 <= metadata.sectors
        * 4096
}

/// Whether the record of every chunk ends inside the sectors of the chunk.
pub open spec fn records_inside(region: RegionView) -> bool {
    forall|slot: int|
        0 <= slot < 1024 ==> record_inside(region.file, #[trigger] region.chunks_metadata[slot])
}

/// Writing a chunk changes no byte in the sectors of another chunk, and
/// leaves its entry.
pub proof fn lemma_other_sectors_untouched(
    region: RegionView,
    slot: int,
    compression_scheme: u8,
    payload: Seq<u8>,
    unix_seconds: int,
    other: int,
)
    requires
        consistent(region),
        0 <= slot < 1024,
        0 <= other < 1024,
        other != slot,
        !too_long(payload),
        !region_full(region, slot, sectors_for(record_length(payload))),
    ensures
        ({
            let kept = region.chunks_metadata[other];
            let after = written(region, slot, compression_scheme, payload, unix_seconds);
            &&& after.chunks_metadata[other] == kept
            &&& kept.sectors != 0 ==> 2 <= kept.sector_index && kept.end() * 4096
                <= region.file.len() <= after.file.len()
            &&& forall|i: int|
                kept.sector_index * 4096 <= i < kept.end() * 4096 ==> after.file[i]
                    == region.file[i]
        }),
{
    let sectors_required = sectors_for(record_length(payload));
    let place = placement(region.used_sectors, region.chunks_metadata[slot], sectors_required);
    let after = written(region, slot, compression_scheme, payload, unix_seconds);
    let entry = after.chunks_metadata[slot];
    let kept = region.chunks_metadata[other];
    law_write_keeps_consistent(region, slot, compression_scheme, payload, unix_seconds);
    law_file_only_grows(region, slot, compression_scheme, payload, unix_seconds);
    assert(after.chunks_metadata[other] == kept);
    assert(entry.sector_index == place.sector_index) by {
        lemma_placement(region.used_sectors, region.chunks_metadata[slot], sectors_required);
    }
    assert(entry.sectors == sectors_required);
    if kept.sectors != 0 {
        assert(2 <= kept.sector_index && kept.end() <= region.used_sectors.len());
        let first = kept.sector_index * 4096;
        assert forall|i: int| first <= i < kept.end() * 4096 implies after.file[i]
            == region.file[i] by {
            let sector = i / 4096;
            assert(after.chunks_metadata[other].covers(sector));
            assert(!after.chunks_metadata[slot].covers(sector));
        }
    }
}

/// Writing a chunk leaves the other chunks alone: the entry of another chunk
/// stays, and reading it finds what it found before.
pub proof fn law_write_leaves_other_chunks(
    region: RegionView,
    slot: int,
    compression_scheme: u8,
    payload: Seq<u8>,
    unix_seconds: int,
    other: int,
)
    requires
        consistent(region),
        0 <= slot < 1024,
        0 <= other < 1024,
        other != slot,
        !too_long(payload),
        !region_full(region, slot, sectors_for(record_length(payload))),
        record_inside(region.file, region.chunks_metadata[other]),
    ensures
        ({
            let after = written(region, slot, compression_scheme, payload, unix_seconds);
            &&& after.chunks_metadata[other] == region.chunks_metadata[other]
            &&& record_inside(after.file, after.chunks_metadata[other])
            &&& chunk_read(after.file, after.chunks_metadata[other]) == chunk_read(
                region.file,
                region.chunks_metadata[other],
            )
        }),
{
    let file = region.file;
    let kept = region.chunks_metadata[other];
    let changed = written(region, slot, compression_scheme, payload, unix_seconds).file;
    lemma_other_sectors_untouched(region, slot, compression_scheme, payload, unix_seconds, other);
    if kept.sectors != 0 {
        lemma_same_record(file, changed, kept);
    }
}

/// Two files that agree on the sectors of a chunk, which lie inside both,
/// hold the same record for it, where the record ends inside the sectors.
pub proof fn lemma_same_record(file: Seq<u8>, changed: Seq<u8>, metadata: AnvilChunkMetadata)
    requires
        metadata.sectors != 0,
        metadata.end() * 4096 <= file.len(),
        metadata.end() * 4096 <= changed.len(),
        forall|i: int|
            metadata.sector_index * 4096 <= i < metadata.end() * 4096 ==> changed[i] == file[i],
        record_inside(file, metadata),
    ensures
        record_inside(changed, metadata),
        chunk_read(changed, metadata) == chunk_read(file, metadata),
{
    let offset = metadata.sector_index * 4096;
    assert(changed[offset] == file[offset]);
    assert(changed[offset + 1] == file[offset + 1]);
    assert(changed[offset + 2] == file[offset + 2]);
    assert(changed[offset + 3] == file[offset + 3]);
    let length = word_at(file, offset);
    assert(word_at(changed, offset) == length);
    assert(changed[offset + 4] == file[offset + 4]);
    if length > 0 {
        assert(changed.subrange(offset + 5, offset + 4 + length) =~= file.subrange(
            offset + 5,
            offset + 4 + length,
        ));
    } else {
        assert(changed.subrange(offset + 5, offset + 5) =~= file.subrange(offset + 5, offset + 5));
    }
}

/// A record that was written ends inside the sectors of its chunk.
pub proof fn lemma_written_record_inside(
    region: RegionView,
    slot: int,
    compression_scheme: u8,
    payload: Seq<u8>,
    unix_seconds: int,
)
    requires
        region.wf(),
        0 <= slot < 1024,
        !too_long(payload),
        !region_full(region, slot, sectors_for(record_length(payload))),
    ensures
        ({
            let after = written(region, slot, compression_scheme, payload, unix_seconds);
            record_inside(after.file, after.chunks_metadata[slot])
        }),
{
    let sectors_required = sectors_for(record_length(payload));
    let place = placement(region.used_sectors, region.chunks_metadata[slot], sectors_required);
    let after = written(region, slot, compression_scheme, payload, unix_seconds);
    let bytes = record(compression_scheme, payload);
    let offset = place.sector_index * 4096;
    lemma_placement(region.used_sectors, region.chunks_metadata[slot], sectors_required);
    lemma_record_length(compression_scheme, payload);
    lemma_be_round_trip((payload.len() + 1) as u32);
    assert(after.chunks_metadata[slot].sector_index == place.sector_index);
    assert(after.file[offset] == bytes[0]);
    assert(after.file[offset + 1] == bytes[1]);
    assert(after.file[offset + 2] == bytes[2]);
    assert(after.file[offset + 3] == bytes[3]);
    assert(word_at(after.file, offset) == payload.len() + 1);
}

/// A record that was written ends inside the sectors of its chunk, and the
/// records of the other chunks still do.
pub proof fn law_write_keeps_records_inside(
    region: RegionView,
    slot: int,
    compression_scheme: u8,
    payload: Seq<u8>,
    unix_seconds: int,
)
    requires
        consistent(region),
        records_inside(region),
        0 <= slot < 1024,
        !too_long(payload),
        !region_full(region, slot, sectors_for(record_length(payload))),
    ensures
        records_inside(written(region, slot, compression_scheme, payload, unix_seconds)),
{
    let after = written(region, slot, compression_scheme, payload, unix_seconds);
    assert forall|other: int| 0 <= other < 1024 implies record_inside(
        after.file,
        #[trigger] after.chunks_metadata[other],
    ) by {
        if other == slot {
            lemma_written_record_inside(region, slot, compression_scheme, payload, unix_seconds);
        } else {
            assert(record_inside(region.file, region.chunks_metadata[other]));
            law_write_leaves_other_chunks(
                region,
                slot,
                compression_scheme,
                payload,
                unix_seconds,
                other,
            );
        }
    }
}

} // verus!
