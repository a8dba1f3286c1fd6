//! The header of a region file: one entry of metadata for each chunk slot.

use crate::endian::word_at;
use vstd::prelude::*;

verus! {

/// Metadata of one chunk, as the header stores it.
#[derive(Copy, Clone, Debug, PartialEq, Eq, Structural)]
pub struct AnvilChunkMetadata {
    /// Index of the first sector of the chunk's record.
    pub sector_index: u32,
    /// Number of sectors of the record. Zero marks an empty slot.
    pub sectors: u8,
    /// Time of the last write, in seconds since the Unix epoch.
    pub last_modified_timestamp: u32,
}

impl Default for AnvilChunkMetadata {
    fn default() -> (metadata: Self)
        ensures
            metadata == (AnvilChunkMetadata {
                sector_index: 0,
                sectors: 0,
                last_modified_timestamp: 0,
            }),
    {
        AnvilChunkMetadata { sector_index: 0, sectors: 0, last_modified_timestamp: 0 }
    }
}

impl AnvilChunkMetadata {
    /// The first sector behind the chunk's record.
    pub open spec fn end(self) -> int {
        self.sector_index + self.sectors
    }

    /// Whether the record of the chunk lies on `sector`.
    pub open spec fn covers(self, sector: int) -> bool {
        self.sector_index <= sector < self.end()
    }

    /// The offset word of the entry: the sector index in the upper 24 bits,
    /// the sector count in the lower 8.
    pub open spec fn offset_word(self) -> u32 {
        ((self.sector_index % 0x100_0000) * 0x100 + self.sectors) as u32
    }

    /// The entry that an offset word and a timestamp word stand for.
    pub open spec fn of_words(offset_word: u32, timestamp: u32) -> AnvilChunkMetadata {
        AnvilChunkMetadata {
            sector_index: offset_word / 0x100,
            sectors: (offset_word % 0x100) as u8,
            last_modified_timestamp: timestamp,
        }
    }

    pub fn new(sector_index: u32, sectors: u8, last_modified_timestamp: u32) -> (metadata: Self)
        ensures
            metadata == (AnvilChunkMetadata { sector_index, sectors, last_modified_timestamp }),
    {
        AnvilChunkMetadata { sector_index, sectors, last_modified_timestamp }
    }

    /// Sets the time of the last write to `unix_seconds`, cut to 32 bits.
    pub fn update_last_modified_timestamp(&mut self, unix_seconds: u64)
        ensures
            final(self).last_modified_timestamp == unix_seconds % 0x1_0000_0000,
            final(self).sector_index == old(self).sector_index,
            final(self).sectors == old(self).sectors,
    {
        assert((unix_seconds & 0xFFFF_FFFF) == unix_seconds % 0x1_0000_0000) by (bit_vector);
        assert((unix_seconds & 0xFFFF_FFFF) <= 0xFFFF_FFFF) by (bit_vector);
        self.last_modified_timestamp = (unix_seconds & 0xFFFF_FFFF) as u32;
    }

    /// Whether the slot is empty.
    pub fn is_empty(&self) -> (empty: bool)
        ensures
            empty == (self.sectors == 0),
    {
        self.sectors == 0
    }

    /// Packs sector index and sector count into an offset word.
    pub fn to_offset_word(&self) -> (word: u32)
        ensures
            word == self.offset_word(),
    {
        let sector_index: u32 = self.sector_index;
        let sectors: u8 = self.sectors;
        assert(((sector_index << 8u32) | (sectors as u32)) == ((sector_index % 0x100_0000) * 0x100
            + sectors) as u32) by (bit_vector);
        (sector_index << 8) | (sectors as u32)
    }

    /// Unpacks an offset word and joins it with a timestamp.
    pub fn from_words(offset_word: u32, timestamp: u32) -> (metadata: Self)
        ensures
            metadata == Self::of_words(offset_word, timestamp),
            metadata.sector_index < 0x100_0000,
    {
        assert((offset_word >> 8u32) == offset_word / 0x100) by (bit_vector);
        assert((offset_word & 0xFF) == offset_word % 0x100) by (bit_vector);
        assert((offset_word & 0xFF) < 0x100) by (bit_vector);
        AnvilChunkMetadata {
            sector_index: offset_word >> 8,
            sectors: (offset_word & 0xFF) as u8,
            last_modified_timestamp: timestamp,
        }
    }
}

/// Entry `slot` of the header that `file` starts with: offset word `slot` of
/// the first sector, timestamp word `slot` of the second.
pub open spec fn header_entry(file: Seq<u8>, slot: int) -> AnvilChunkMetadata {
    AnvilChunkMetadata::of_words(word_at(file, 4 * slot), word_at(file, 4096 + 4 * slot))
}

/// The header that `file` starts with.
pub open spec fn parsed_header(file: Seq<u8>) -> Seq<AnvilChunkMetadata> {
    Seq::new(1024, |slot: int| header_entry(file, slot))
}

/// An entry whose sector index fits in 24 bits comes back from its words.
pub proof fn lemma_words_round_trip(metadata: AnvilChunkMetadata)
    requires
        metadata.sector_index < 0x100_0000,
    ensures
        AnvilChunkMetadata::of_words(metadata.offset_word(), metadata.last_modified_timestamp)
            == metadata,
{
}

} // verus!
