//! The chunk locator: from a chunk coordinate of the world to the region
//! file that holds the chunk and to the chunk's place inside it.

use crate::codec::zlib_encoded;
use crate::error::{ChunkLoadError, ChunkSaveError};
use crate::format::{
    local_of, region_chunk_coordinate, region_coordinate, region_of, sectors_for, slot_of,
    ZLIB_COMPRESSION_TYPE,
};
use crate::model::{chunk_read, opened, record_length, region_full, too_long, written, RegionView};
use crate::region::{chunk_loaded, AnvilRegion};
use nbt::CompoundTag;
use vstd::prelude::*;

verus! {

/// Loads and saves the chunks of a world whose region files lie in one
/// folder.
pub struct AnvilChunkProvider<'a> {
    /// Folder where the region files are located.
    folder_path: &'a str,
}

/// The decimal digit of a value below ten.
pub open spec fn digit(value: int) -> char {
    if value == 0 {
        '0'
    } else if value == 1 {
        '1'
    } else if value == 2 {
        '2'
    } else if value == 3 {
        '3'
    } else if value == 4 {
        '4'
    } else if value == 5 {
        '5'
    } else if value == 6 {
        '6'
    } else if value == 7 {
        '7'
    } else if value == 8 {
        '8'
    } else {
        '9'
    }
}

/// The decimal digits of `value`, without leading zeros.
pub open spec fn decimal(value: nat) -> Seq<char>
    decreases value,
{
    if value < 10 {
        seq![digit(value as int)]
    } else {
        decimal(value / 10) + seq![digit((value % 10) as int)]
    }
}

/// The decimal form of `value`, with a minus sign where it is negative.
pub open spec fn signed_decimal(value: int) -> Seq<char> {
    if value < 0 {
        seq!['-'] + decimal((-value) as nat)
    } else {
        decimal(value as nat)
    }
}

/// Name of the file of the region at `(region_x, region_z)`: `r.`, the two
/// coordinates with a dot between them, and `.mca`.
pub open spec fn region_name(region_x: int, region_z: int) -> Seq<char> {
    seq!['r', '.'] + signed_decimal(region_x) + seq!['.'] + signed_decimal(region_z) + seq![
        '.',
        'm',
        'c',
        'a',
    ]
}

/// Whether `result` is what loading the chunk at `(chunk_x, chunk_z)` of the
/// world owes, where `region_file` holds the bytes of its region file, or
/// nothing where there is no such file.
pub open spec fn chunk_provided(
    chunk_x: int,
    chunk_z: int,
    region_file: Option<Seq<u8>>,
    result: Result<CompoundTag, ChunkLoadError>,
) -> bool {
    match region_file {
        None => {
            &&& result matches Err(ChunkLoadError::RegionNotFound { region_x, region_z })
            &&& region_x == region_of(chunk_x)
            &&& region_z == region_of(chunk_z)
        },
        Some(file) => chunk_loaded(
            chunk_read(
                opened(file).file,
                opened(file).chunks_metadata[slot_of(local_of(chunk_x), local_of(chunk_z))],
            ),
            local_of(chunk_x) as u8,
            local_of(chunk_z) as u8,
            result,
        ),
    }
}

/// Whether `result` is what saving a chunk with the encoded `payload` in
/// `slot` of the region `before` owes: the bytes of the region file after
/// the write, or the error of a record that is too long or of a full region.
pub open spec fn chunk_saved(
    before: RegionView,
    slot: int,
    payload: Seq<u8>,
    unix_seconds: int,
    result: Result<Vec<u8>, ChunkSaveError>,
) -> bool {
    if too_long(payload) {
        &&& result matches Err(ChunkSaveError::LengthExceedsMaximum { length })
        &&& length == if record_length(payload) < u32::MAX {
            record_length(payload)
        } else {
            u32::MAX as int
        }
    } else if region_full(before, slot, sectors_for(record_length(payload))) {
        result matches Err(ChunkSaveError::WriteError { .. })
    } else {
        &&& result matches Ok(file)
        &&& file@ == written(before, slot, ZLIB_COMPRESSION_TYPE, payload, unix_seconds).file
    }
}

/// One decimal digit as text.
fn digit_text(value: u32) -> (text: &'static str)
    requires
        value < 10,
    ensures
        text@ == seq![digit(value as int)],
{
    proof {
        reveal_strlit("0");
        reveal_strlit("1");
        reveal_strlit("2");
        reveal_strlit("3");
        reveal_strlit("4");
        reveal_strlit("5");
        reveal_strlit("6");
        reveal_strlit("7");
        reveal_strlit("8");
        reveal_strlit("9");
    }
    let text = if value == 0 {
        "0"
    } else if value == 1 {
        "1"
    } else if value == 2 {
        "2"
    } else if value == 3 {
        "3"
    } else if value == 4 {
        "4"
    } else if value == 5 {
        "5"
    } else if value == 6 {
        "6"
    } else if value == 7 {
        "7"
    } else if value == 8 {
        "8"
    } else {
        "9"
    };
    assert(text@ =~= seq![digit(value as int)]);
    text
}

/// Appends the decimal digits of `value` to `text`.
fn append_decimal(text: &mut String, value: u32)
    ensures
        final(text)@ == old(text)@ + decimal(value as nat),
    decreases value,
{
    if value >= 10 {
        append_decimal(text, value / 10);
    }
    text.append(digit_text(value % 10));
    assert(text@ =~= old(text)@ + decimal(value as nat));
}

/// Appends the decimal form of `value` to `text`.
fn append_signed_decimal(text: &mut String, value: i32)
    ensures
        final(text)@ == old(text)@ + signed_decimal(value as int),
{
    if value < 0 {
        proof {
            reveal_strlit("-");
        }
        text.append("-");
        let magnitude: u32 = (-(value as i64)) as u32;
        append_decimal(text, magnitude);
        assert(text@ =~= old(text)@ + signed_decimal(value as int));
    } else {
        append_decimal(text, value as u32);
    }
}

impl<'a> AnvilChunkProvider<'a> {
    pub fn new(folder: &'a str) -> (provider: Self)
        ensures
            provider.folder() == folder,
    {
        AnvilChunkProvider { folder_path: folder }
    }

    /// Folder where the region files are located.
    pub closed spec fn folder(&self) -> &'a str {
        self.folder_path
    }

    /// Folder where the region files are located.
    pub fn folder_path(&self) -> (folder: &'a str)
        ensures
            folder == self.folder(),
    {
        self.folder_path
    }

    /// Name of the file of the region at `(region_x, region_z)`.
    pub fn region_file_name(region_x: i32, region_z: i32) -> (name: String)
        ensures
            name@ == region_name(region_x as int, region_z as int),
    {
        proof {
            reveal_strlit("r.");
            reveal_strlit(".");
            reveal_strlit(".mca");
        }
        let mut name = String::from_str("r.");
        append_signed_decimal(&mut name, region_x);
        name.append(".");
        append_signed_decimal(&mut name, region_z);
        name.append(".mca");
        assert(name@ =~= region_name(region_x as int, region_z as int));
        name
    }

    /// Loads the chunk at `(chunk_x, chunk_z)` of the world. `region_file`
    /// holds the bytes of the file of the chunk's region, or nothing where
    /// there is no such file.
    ///
    /// Without a region file the error names the coordinates of the region.
    /// With one, the chunk is read from it at its coordinates inside the
    /// region.
    pub fn load_chunk(&self, chunk_x: i32, chunk_z: i32, region_file: Option<Vec<u8>>) -> (result:
        Result<CompoundTag, ChunkLoadError>)
        ensures
            chunk_provided(
                chunk_x as int,
                chunk_z as int,
                match region_file {
                    Some(file) => Some(file@),
                    None => None,
                },
                result,
            ),
    {
        let region_x: i32 = region_coordinate(chunk_x);
        let region_z: i32 = region_coordinate(chunk_z);
        let region_chunk_x: u8 = region_chunk_coordinate(chunk_x);
        let region_chunk_z: u8 = region_chunk_coordinate(chunk_z);
        match region_file {
            None => Err(ChunkLoadError::RegionNotFound { region_x, region_z }),
            Some(file) => {
                let region = AnvilRegion::new(file);
                region.read_chunk(region_chunk_x, region_chunk_z)
            },
        }
    }

    /// Saves `chunk_compound_tag` as the chunk at `(chunk_x, chunk_z)` of the
    /// world, at the time `unix_seconds`. `region_file` holds the bytes of
    /// the file of the chunk's region, and is empty where there is no such
    /// file yet. Returns the bytes of the region file after the write.
    pub fn save_chunk(
        &self,
        chunk_x: i32,
        chunk_z: i32,
        chunk_compound_tag: CompoundTag,
        region_file: Vec<u8>,
        unix_seconds: u64,
    ) -> (result: Result<Vec<u8>, ChunkSaveError>)
        ensures
            match zlib_encoded(chunk_compound_tag) {
                Some(payload) => chunk_saved(
                    opened(region_file@),
                    slot_of(local_of(chunk_x as int), local_of(chunk_z as int)),
                    payload,
                    unix_seconds as int,
                    result,
                ),
                None => result matches Err(ChunkSaveError::WriteError { .. }),
            },
    {
        let region_chunk_x: u8 = region_chunk_coordinate(chunk_x);
        let region_chunk_z: u8 = region_chunk_coordinate(chunk_z);
        let mut region = AnvilRegion::new(region_file);
        match region.write_chunk(region_chunk_x, region_chunk_z, chunk_compound_tag, unix_seconds) {
            Ok(()) => Ok(region.into_file()),
            Err(error) => Err(error),
        }
    }
}

} // verus!
