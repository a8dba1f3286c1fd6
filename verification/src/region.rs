//! The region file engine: reads and writes the chunks of one region, on the
//! bytes of its file.

use crate::bitmap::{grown, lemma_no_fit_short_tail, marked, used_sectors_of, SectorBitmap};
use crate::bytes::{append_zeros, splice, write_at, write_zeros, zeros};
use crate::codec::{decode_chunk, decoded, encode_zlib, zlib_encoded};
use crate::endian::{read_word, u32_to_be};
use crate::error::{file_too_large, unexpected_eof, ChunkLoadError, ChunkSaveError};
use crate::format::{
    sectors_for, slot_of, CHUNK_MAXIMUM_BYTES_LENGTH, CHUNK_MAXIMUM_SECTORS, REGION_CHUNKS,
    REGION_MAXIMUM_SECTORS, ZLIB_COMPRESSION_TYPE,
};
use crate::metadata::{header_entry, parsed_header, AnvilChunkMetadata};
use crate::model::{
    chunk_read, lemma_placement, opened, placed_metadata, placement, record, record_length,
    region_full, too_long, with_metadata, with_place, written, ChunkRead, RegionView,
};
use nbt::CompoundTag;
use vstd::prelude::*;
use vstd::slice::{slice_subrange, slice_to_vec};

verus! {

/// A region: a group of 32x32 chunks in one file.
pub struct AnvilRegion {
    /// The bytes of the file in which the region is stored.
    file: Vec<u8>,
    /// The metadata of the chunks, by slot.
    chunks_metadata: [AnvilChunkMetadata; REGION_CHUNKS],
    /// The sectors in use.
    used_sectors: SectorBitmap,
}

impl View for AnvilRegion {
    type V = RegionView;

    closed spec fn view(&self) -> RegionView {
        RegionView {
            file: self.file@,
            chunks_metadata: self.chunks_metadata@,
            used_sectors: self.used_sectors@,
        }
    }
}

/// Whether `result` is what reading the record of the chunk at
/// `(chunk_x, chunk_z)` owes, where the read found `read`.
pub open spec fn record_read(
    read: ChunkRead,
    chunk_x: u8,
    chunk_z: u8,
    result: Result<(u8, Vec<u8>), ChunkLoadError>,
) -> bool {
    match read {
        ChunkRead::NotFound => result matches Err(
            ChunkLoadError::ChunkNotFound { chunk_x: x, chunk_z: z },
        ) && x == chunk_x && z == chunk_z,
        ChunkRead::Truncated => result matches Err(ChunkLoadError::ReadError { .. }),
        ChunkRead::TooLong { length, maximum_length } => result matches Err(
            ChunkLoadError::LengthExceedsMaximum { length: found, maximum_length: allowed },
        ) && found == length && allowed == maximum_length,
        ChunkRead::Record { compression_scheme, payload } => result matches Ok((scheme, bytes))
            && scheme == compression_scheme && bytes@ == payload,
    }
}

/// Whether `result` is what loading the chunk at `(chunk_x, chunk_z)` owes,
/// where the read of its record found `read`.
pub open spec fn chunk_loaded(
    read: ChunkRead,
    chunk_x: u8,
    chunk_z: u8,
    result: Result<CompoundTag, ChunkLoadError>,
) -> bool {
    match read {
        ChunkRead::NotFound => result matches Err(
            ChunkLoadError::ChunkNotFound { chunk_x: x, chunk_z: z },
        ) && x == chunk_x && z == chunk_z,
        ChunkRead::Truncated => result matches Err(ChunkLoadError::ReadError { .. }),
        ChunkRead::TooLong { length, maximum_length } => result matches Err(
            ChunkLoadError::LengthExceedsMaximum { length: found, maximum_length: allowed },
        ) && found == length && allowed == maximum_length,
        ChunkRead::Record { compression_scheme, payload } => decoded(
            compression_scheme,
            payload,
            result,
        ),
    }
}

/// Whether `result` and the region `after` are what writing the record of
/// `payload` for the chunk in `slot` owes, on the region `before`. A record
/// that is too long, and a region that is full, leave the region as it was.
pub open spec fn record_written(
    before: RegionView,
    slot: int,
    compression_scheme: u8,
    payload: Seq<u8>,
    unix_seconds: int,
    result: Result<(), ChunkSaveError>,
    after: RegionView,
) -> bool {
    if too_long(payload) {
        &&& result matches Err(ChunkSaveError::LengthExceedsMaximum { length })
        &&& length == if record_length(payload) < u32::MAX {
            record_length(payload)
        } else {
            u32::MAX as int
        }
        &&& after == before
    } else if region_full(before, slot, sectors_for(record_length(payload))) {
        &&& result matches Err(ChunkSaveError::WriteError { .. })
        &&& after == before
    } else {
        &&& result is Ok
        &&& after == written(before, slot, compression_scheme, payload, unix_seconds)
    }
}

/// Whether `result` and the region `after` are what growing the region
/// `before` by `additional_sectors` owes.
pub open spec fn region_grown(
    before: RegionView,
    additional_sectors: int,
    result: Result<(), std::io::Error>,
    after: RegionView,
) -> bool {
    if before.used_sectors.len() + additional_sectors > REGION_MAXIMUM_SECTORS
        || before.file.len() + additional_sectors * 4096 > usize::MAX {
        result is Err && after == before
    } else {
        &&& result is Ok
        &&& after == RegionView {
            file: before.file + zeros(additional_sectors * 4096),
            chunks_metadata: before.chunks_metadata,
            used_sectors: grown(before.used_sectors, additional_sectors),
        }
    }
}

impl AnvilRegion {
    /// The invariant of a region.
    pub open spec fn wf(&self) -> bool {
        self@.wf()
    }

    /// Opens the region stored in `file`. A file shorter than the header is
    /// first extended with zero bytes to the length of the header. The
    /// header is parsed, and the sector bitmap is built from it.
    pub fn new(file: Vec<u8>) -> (region: Self)
        ensures
            region.wf(),
            region@ == opened(file@),
    {
        let mut file = file;
        if file.len() < 8192 {
            let ghost before = file@;
            file.resize(8192, 0u8);
            assert(file@ =~= before + zeros(8192 - before.len())) by {
                assert(file@.subrange(0, before.len() as int) == before);
                assert forall|i: int| 0 <= i < before.len() implies file@[i] == before[i] by {
                    assert(file@.subrange(0, before.len() as int)[i] == file@[i]);
                }
            }
        }
        let chunks_metadata = Self::parse_header(file.as_slice());
        let total_sectors: usize = file.len() / 4096;
        let used_sectors = SectorBitmap::from_header(total_sectors, chunks_metadata.as_slice());
        AnvilRegion { file, chunks_metadata, used_sectors }
    }

    /// Parses the header that `file` starts with.
    fn parse_header(file: &[u8]) -> (chunks_metadata: [AnvilChunkMetadata; REGION_CHUNKS])
        requires
            file.len() >= 8192,
        ensures
            chunks_metadata@ == parsed_header(file@),
    {
        let empty = AnvilChunkMetadata { sector_index: 0, sectors: 0, last_modified_timestamp: 0 };
        let mut chunks_metadata: [AnvilChunkMetadata; REGION_CHUNKS] = [empty; REGION_CHUNKS];
        let mut index: usize = 0;
        while index < REGION_CHUNKS
            invariant
                index <= REGION_CHUNKS,
                file.len() >= 8192,
                forall|slot: int|
                    0 <= slot < index ==> chunks_metadata@[slot] == header_entry(file@, slot),
            decreases REGION_CHUNKS - index,
        {
            let offset: u32 = read_word(file, 4 * index);
            let last_modified_timestamp: u32 = read_word(file, 4096 + 4 * index);
            let metadata = AnvilChunkMetadata::from_words(offset, last_modified_timestamp);
            chunks_metadata[index] = metadata;
            index += 1;
        }
        assert(chunks_metadata@ =~= parsed_header(file@));
        chunks_metadata
    }

    /// Parses the header of a region file: the first 8192 bytes are 1024
    /// offset words, then 1024 timestamp words. A shorter file gives the
    /// error of a read at its end.
    pub fn read_header(file: &[u8]) -> (header: Result<
        [AnvilChunkMetadata; REGION_CHUNKS],
        std::io::Error,
    >)
        ensures
            match header {
                Ok(chunks_metadata) => file@.len() >= 8192 && chunks_metadata@ == parsed_header(
                    file@,
                ),
                Err(_) => file@.len() < 8192,
            },
    {
        if file.len() < 8192 {
            return Err(unexpected_eof());
        }
        Ok(Self::parse_header(file))
    }

    /// Calculates the sectors in use in a file of `total_sectors` sectors
    /// with the entries `chunks_metadata`.
    pub fn used_sectors(total_sectors: u32, chunks_metadata: &[AnvilChunkMetadata]) -> (bitmap:
        SectorBitmap)
        requires
            2 <= total_sectors <= usize::MAX / 8,
        ensures
            bitmap@ == used_sectors_of(total_sectors as int, chunks_metadata@),
    {
        SectorBitmap::from_header(total_sectors as usize, chunks_metadata)
    }

    /// The bytes of the region file.
    pub fn file(&self) -> (file: &Vec<u8>)
        ensures
            file@ == self@.file,
    {
        &self.file
    }

    /// Gives the bytes of the region file back.
    pub fn into_file(self) -> (file: Vec<u8>)
        ensures
            file@ == self@.file,
    {
        self.file
    }

    /// The sector bitmap.
    pub fn sectors(&self) -> (bitmap: &SectorBitmap)
        ensures
            bitmap@ == self@.used_sectors,
    {
        &self.used_sectors
    }

    /// Header slot of the chunk at `(chunk_x, chunk_z)`.
    pub fn metadata_index(chunk_x: u8, chunk_z: u8) -> (index: usize)
        requires
            chunk_x < 32,
            chunk_z < 32,
        ensures
            index == slot_of(chunk_x as int, chunk_z as int),
            index < 1024,
    {
        chunk_x as usize + chunk_z as usize * 32
    }

    /// Returns the metadata of the chunk at `(chunk_x, chunk_z)`.
    pub fn get_metadata(&self, chunk_x: u8, chunk_z: u8) -> (metadata: AnvilChunkMetadata)
        requires
            chunk_x < 32,
            chunk_z < 32,
        ensures
            metadata == self@.chunks_metadata[slot_of(chunk_x as int, chunk_z as int)],
    {
        self.chunks_metadata[Self::metadata_index(chunk_x, chunk_z)]
    }

    /// Reads the record of the chunk at `(chunk_x, chunk_z)`: its
    /// compression scheme and its payload, still compressed.
    pub fn read_record(&self, chunk_x: u8, chunk_z: u8) -> (result: Result<
        (u8, Vec<u8>),
        ChunkLoadError,
    >)
        requires
            chunk_x < 32,
            chunk_z < 32,
        ensures
            record_read(
                chunk_read(
                    self@.file,
                    self@.chunks_metadata[slot_of(chunk_x as int, chunk_z as int)],
                ),
                chunk_x,
                chunk_z,
                result,
            ),
    {
        let metadata = self.get_metadata(chunk_x, chunk_z);
        if metadata.is_empty() {
            return Err(ChunkLoadError::ChunkNotFound { chunk_x, chunk_z });
        }
        let file_length: u64 = self.file.len() as u64;
        let seek_offset: u64 = metadata.sector_index as u64 * 4096;
        let sectors_length: u32 = metadata.sectors as u32 * 4096;
        let maximum_length: u32 = if sectors_length < CHUNK_MAXIMUM_BYTES_LENGTH {
            sectors_length
        } else {
            CHUNK_MAXIMUM_BYTES_LENGTH
        };
        if seek_offset + 4 > file_length {
            return Err(ChunkLoadError::ReadError { io_error: unexpected_eof() });
        }
        let offset: usize = seek_offset as usize;
        let length: u32 = read_word(self.file.as_slice(), offset);
        if length > maximum_length {
            return Err(ChunkLoadError::LengthExceedsMaximum { length, maximum_length });
        }
        let payload_length: u32 = if length == 0 {
            0
        } else {
            length - 1
        };
        if seek_offset + 5 + payload_length as u64 > file_length {
            return Err(ChunkLoadError::ReadError { io_error: unexpected_eof() });
        }
        let compression_scheme: u8 = self.file[offset + 4];
        let payload = slice_to_vec(
            slice_subrange(self.file.as_slice(), offset + 5, offset + 5 + payload_length as usize),
        );
        Ok((compression_scheme, payload))
    }

    /// Loads the chunk at `(chunk_x, chunk_z)`: reads its record and decodes
    /// the payload under the compression scheme that the record names.
    pub fn read_chunk(&self, chunk_x: u8, chunk_z: u8) -> (result: Result<
        CompoundTag,
        ChunkLoadError,
    >)
        requires
            chunk_x < 32,
            chunk_z < 32,
        ensures
            chunk_loaded(
                chunk_read(
                    self@.file,
                    self@.chunks_metadata[slot_of(chunk_x as int, chunk_z as int)],
                ),
                chunk_x,
                chunk_z,
                result,
            ),
    {
        match self.read_record(chunk_x, chunk_z) {
            Ok((compression_scheme, payload)) => decode_chunk(
                compression_scheme,
                payload.as_slice(),
            ),
            Err(error) => Err(error),
        }
    }

    /// Appends `additional` sectors to file and bitmap: zero bytes in the
    /// file, sectors in use in the bitmap.
    fn extend(&mut self, additional: usize)
        requires
            old(self).wf(),
            old(self)@.used_sectors.len() + additional <= REGION_MAXIMUM_SECTORS,
            old(self)@.file.len() + additional * 4096 <= usize::MAX,
        ensures
            final(self).wf(),
            final(self)@ == (RegionView {
                file: old(self)@.file + zeros(additional * 4096),
                chunks_metadata: old(self)@.chunks_metadata,
                used_sectors: grown(old(self)@.used_sectors, additional as int),
            }),
    {
        append_zeros(&mut self.file, additional * 4096);
        self.used_sectors.grow(additional);
    }

    /// Grows the region by `additional_sectors`: the file gets that many
    /// sectors of zero bytes, and the bitmap as many sectors in use. A region
    /// that would pass the sector count that an offset word can address, or
    /// the file length that the machine can, is left as it is, with an error.
    pub fn grow(&mut self, additional_sectors: usize) -> (result: Result<(), std::io::Error>)
        requires
            old(self).wf(),
        ensures
            final(self).wf(),
            region_grown(old(self)@, additional_sectors as int, result, final(self)@),
    {
        let total_sectors: usize = self.used_sectors.len();
        if total_sectors > REGION_MAXIMUM_SECTORS || additional_sectors > REGION_MAXIMUM_SECTORS
            - total_sectors {
            return Err(file_too_large());
        }
        if additional_sectors > (usize::MAX - self.file.len()) / 4096 {
            return Err(file_too_large());
        }
        self.extend(additional_sectors);
        Ok(())
    }

    /// Marks the `count` sectors from `start` on: in use where `used` holds,
    /// free where not. Sectors outside the file are skipped, and the two
    /// sectors of the header stay in use.
    pub fn mark_range(&mut self, start: usize, count: usize, used: bool)
        requires
            old(self).wf(),
        ensures
            final(self).wf(),
            final(self)@ == (RegionView {
                file: old(self)@.file,
                chunks_metadata: old(self)@.chunks_metadata,
                used_sectors: marked(old(self)@.used_sectors, start as int, count as int, used),
            }),
    {
        self.used_sectors.mark_range(start, count, used);
    }

    /// Finds a place for a record of `chunk_length` bytes of the chunk at
    /// `(chunk_x, chunk_z)`, and returns the entry that describes it.
    ///
    /// A chunk that has the sectors which the record needs keeps them.
    /// Otherwise its sectors are released, and the record gets the first run
    /// of free sectors that is long enough. Where there is none, the file
    /// grows by what the free run at its end lacks.
    ///
    /// A chunk that must move in a full region gets an error, and the region
    /// stays as it is.
    pub fn find_place(&mut self, chunk_x: u8, chunk_z: u8, chunk_length: u32) -> (place: Result<
        AnvilChunkMetadata,
        std::io::Error,
    >)
        requires
            old(self).wf(),
            chunk_x < 32,
            chunk_z < 32,
            sectors_for(chunk_length as int) <= 255,
        ensures
            final(self).wf(),
            match place {
                Ok(metadata) => {
                    &&& !region_full(
                        old(self)@,
                        slot_of(chunk_x as int, chunk_z as int),
                        sectors_for(chunk_length as int),
                    )
                    &&& final(self)@ == with_place(
                        old(self)@,
                        slot_of(chunk_x as int, chunk_z as int),
                        sectors_for(chunk_length as int),
                    )
                    &&& metadata == placed_metadata(
                        old(self)@.used_sectors,
                        old(self)@.chunks_metadata[slot_of(chunk_x as int, chunk_z as int)],
                        sectors_for(chunk_length as int),
                    )
                },
                Err(_) => {
                    &&& region_full(
                        old(self)@,
                        slot_of(chunk_x as int, chunk_z as int),
                        sectors_for(chunk_length as int),
                    )
                    &&& final(self)@ == old(self)@
                },
            },
    {
        let sectors_required: u8 = (chunk_length / 4096 + 1) as u8;
        let metadata = self.get_metadata(chunk_x, chunk_z);
        let total_sectors: usize = self.used_sectors.len();
        proof {
            lemma_placement(self@.used_sectors, metadata, sectors_required as int);
        }
        // The chunk can stay in its sectors.
        if metadata.sectors == sectors_required && metadata.sector_index >= 2
            && metadata.sector_index as u64 + metadata.sectors as u64 <= total_sectors as u64 {
            assert(self@.file + zeros(0) =~= self@.file);
            return Ok(metadata);
        }
        if total_sectors > REGION_MAXIMUM_SECTORS - sectors_required as usize || self.file.len()
            > usize::MAX - sectors_required as usize * 4096 {
            return Err(file_too_large());
        }
        // Release the sectors of the chunk.
        self.used_sectors.mark_range(
            metadata.sector_index as usize,
            metadata.sectors as usize,
            false,
        );
        // Look for a gap that is large enough.
        match self.used_sectors.first_fit(sectors_required as usize) {
            Some(put_sector_index) => {
                self.used_sectors.mark_range(put_sector_index, sectors_required as usize, true);
                assert(self@.file + zeros(0) =~= self@.file);
                Ok(AnvilChunkMetadata::new(put_sector_index as u32, sectors_required, 0))
            },
            None => {
                // No gap: extend the file behind the free sectors at its end.
                let sectors_free: usize = self.used_sectors.trailing_free();
                proof {
                    lemma_no_fit_short_tail(self@.used_sectors, sectors_required as int);
                }
                let extend_sectors: usize = sectors_required as usize - sectors_free;
                let put_sector_index: usize = total_sectors - sectors_free;
                self.extend(extend_sectors);
                self.used_sectors.mark_range(put_sector_index, sectors_required as usize, true);
                Ok(AnvilChunkMetadata::new(put_sector_index as u32, sectors_required, 0))
            },
        }
    }

    /// Makes `metadata` the entry of the chunk at `(chunk_x, chunk_z)`, in
    /// memory and in the file: the offset word of the slot in the first
    /// sector, its timestamp word in the second. No other byte of the file
    /// changes.
    pub fn update_metadata(&mut self, chunk_x: u8, chunk_z: u8, metadata: AnvilChunkMetadata)
        requires
            old(self).wf(),
            chunk_x < 32,
            chunk_z < 32,
        ensures
            final(self).wf(),
            final(self)@ == with_metadata(
                old(self)@,
                slot_of(chunk_x as int, chunk_z as int),
                metadata,
            ),
    {
        let metadata_index: usize = Self::metadata_index(chunk_x, chunk_z);
        self.chunks_metadata[metadata_index] = metadata;
        let offset = u32_to_be(metadata.to_offset_word());
        write_at(&mut self.file, 4 * metadata_index, offset.as_slice());
        let last_modified_timestamp = u32_to_be(metadata.last_modified_timestamp);
        write_at(&mut self.file, 4096 + 4 * metadata_index, last_modified_timestamp.as_slice());
    }

    /// Writes the record of `payload`, compressed under `compression_scheme`,
    /// for the chunk at `(chunk_x, chunk_z)`, at the time `unix_seconds`.
    ///
    /// The record is the length of scheme byte and payload as a big-endian
    /// word, the scheme byte, the payload, and zero bytes up to the next
    /// sector boundary. It goes where `find_place` says, and the entry of the
    /// chunk then names its place, its sectors and the time.
    ///
    /// A record that needs more than 255 sectors is refused, and so is a
    /// chunk that must move in a full region. Both leave the region as it is.
    pub fn write_record(
        &mut self,
        chunk_x: u8,
        chunk_z: u8,
        compression_scheme: u8,
        payload: &[u8],
        unix_seconds: u64,
    ) -> (result: Result<(), ChunkSaveError>)
        requires
            old(self).wf(),
            chunk_x < 32,
            chunk_z < 32,
        ensures
            final(self).wf(),
            record_written(
                old(self)@,
                slot_of(chunk_x as int, chunk_z as int),
                compression_scheme,
                payload@,
                unix_seconds as int,
                result,
                final(self)@,
            ),
    {
        let payload_length: usize = payload.len();
        // 4 bytes for the length word, 1 byte for the compression scheme.
        if payload_length >= CHUNK_MAXIMUM_SECTORS as usize * 4096 - 5 {
            let length: u32 = if payload_length >= 0xFFFF_FFFF - 5 {
                0xFFFF_FFFF
            } else {
                (payload_length + 5) as u32
            };
            return Err(ChunkSaveError::LengthExceedsMaximum { length });
        }
        let length: u32 = (payload_length + 5) as u32;
        let ghost slot = slot_of(chunk_x as int, chunk_z as int);
        let ghost sectors_required = sectors_for(length as int);
        let ghost place = placement(
            self@.used_sectors,
            self@.chunks_metadata[slot],
            sectors_required,
        );
        proof {
            lemma_placement(self@.used_sectors, self@.chunks_metadata[slot], sectors_required);
        }
        let mut metadata = match self.find_place(chunk_x, chunk_z, length) {
            Ok(metadata) => metadata,
            Err(io_error) => {
                return Err(ChunkSaveError::WriteError { io_error });
            },
        };
        let ghost placed = self@;
        assert(metadata.sector_index == place.sector_index);
        assert(metadata.sectors == sectors_required);
        let file_length: usize = self.file.len();
        assert(place.sector_index + sectors_required <= placed.used_sectors.len());
        assert((metadata.sector_index + sectors_required) * 4096 <= file_length);
        let seek_offset: usize = metadata.sector_index as usize * 4096;
        let length_word = u32_to_be((payload_length + 1) as u32);
        write_at(&mut self.file, seek_offset, length_word.as_slice());
        self.file[seek_offset + 4] = compression_scheme;
        write_at(&mut self.file, seek_offset + 5, payload);
        // Padding to align the record with the sectors.
        let padding: usize = 4096 - (length % 4096) as usize;
        write_zeros(&mut self.file, seek_offset + length as usize, padding);
        assert(self@.file =~= splice(
            placed.file,
            seek_offset as int,
            record(compression_scheme, payload@),
        ));
        metadata.update_last_modified_timestamp(unix_seconds);
        self.update_metadata(chunk_x, chunk_z, metadata);
        Ok(())
    }

    /// Saves `chunk_compound_tag` as the chunk at `(chunk_x, chunk_z)`, at
    /// the time `unix_seconds`: encodes the tag, compressed with zlib, and
    /// writes the record.
    pub fn write_chunk(
        &mut self,
        chunk_x: u8,
        chunk_z: u8,
        chunk_compound_tag: CompoundTag,
        unix_seconds: u64,
    ) -> (result: Result<(), ChunkSaveError>)
        requires
            old(self).wf(),
            chunk_x < 32,
            chunk_z < 32,
        ensures
            final(self).wf(),
            match zlib_encoded(chunk_compound_tag) {
                Some(payload) => record_written(
                    old(self)@,
                    slot_of(chunk_x as int, chunk_z as int),
                    ZLIB_COMPRESSION_TYPE,
                    payload,
                    unix_seconds as int,
                    result,
                    final(self)@,
                ),
                None => result matches Err(ChunkSaveError::WriteError { .. }) && final(self)@
                    == old(self)@,
            },
    {
        match encode_zlib(&chunk_compound_tag) {
            Ok(payload) => self.write_record(
                chunk_x,
                chunk_z,
                ZLIB_COMPRESSION_TYPE,
                payload.as_slice(),
                unix_seconds,
            ),
            Err(io_error) => Err(ChunkSaveError::WriteError { io_error }),
        }
    }
}

} // verus!
