use anvil_region::bitmap::SectorBitmap;
use anvil_region::format::{REGION_HEADER_BYTES_LENGTH, REGION_SECTOR_BYTES_LENGTH};
use anvil_region::metadata::AnvilChunkMetadata;
use anvil_region::region::AnvilRegion;
use anvil_region::{ChunkLoadError, ChunkSaveError};
use nbt::CompoundTag;

const NOW: u64 = 1570215508;

/// The first word of the bitmap: bit `i` is set where sector `i` is in use.
fn first_word(bitmap: &SectorBitmap) -> usize {
    let mut word = 0usize;
    for index in 0..bitmap.len().min(usize::BITS as usize) {
        if bitmap.get(index).unwrap() {
            word |= 1 << index;
        }
    }
    word
}

fn small_tag() -> CompoundTag {
    let mut tag = CompoundTag::new();
    tag.insert_bool("test_bool", true);
    tag.insert_str("test_str", "test");
    tag
}

fn large_tag() -> CompoundTag {
    let mut tag = CompoundTag::new();
    let mut i32_vec = Vec::new();

    // Extending chunk to second sector.
    // Due compression we need to write more than 1024 ints.
    for i in 0..3000 {
        i32_vec.push(i)
    }

    tag.insert_i32_vec("test_i32_vec", i32_vec);
    tag
}

/// A region file whose header holds `entries`, by slot, and whose data
/// sectors are zero.
fn file_with_header(entries: &[(usize, AnvilChunkMetadata)], sectors: usize) -> Vec<u8> {
    let mut file = vec![0u8; sectors * 4096];
    for (slot, metadata) in entries {
        let offset = (metadata.sector_index << 8) | metadata.sectors as u32;
        file[slot * 4..slot * 4 + 4].copy_from_slice(&offset.to_be_bytes());
        file[4096 + slot * 4..4096 + slot * 4 + 4]
            .copy_from_slice(&metadata.last_modified_timestamp.to_be_bytes());
    }
    file
}

#[test]
fn test_empty_header_write() {
    let region = AnvilRegion::new(Vec::new());
    let file_length = region.file().len() as u64;

    assert_eq!(file_length, REGION_HEADER_BYTES_LENGTH);
}

#[test]
fn test_empty_region_init() {
    let region = AnvilRegion::new(Vec::new());

    assert_eq!(region.into_file(), vec![0u8; 8192]);
}

#[test]
fn test_header_read() {
    let expected_data = vec![
        AnvilChunkMetadata::new(61, 2, 1570215508),
        AnvilChunkMetadata::new(102, 2, 1570215511),
        AnvilChunkMetadata::new(177, 2, 1570215515),
        AnvilChunkMetadata::new(265, 2, 1570215519),
        AnvilChunkMetadata::new(56, 2, 1570215508),
    ];

    let entries: Vec<(usize, AnvilChunkMetadata)> = expected_data
        .iter()
        .enumerate()
        .map(|(index, metadata)| (256 + index, *metadata))
        .collect();
    let file = file_with_header(&entries, 267);

    let chunks_metadata = AnvilRegion::read_header(&file).unwrap();
    let region = AnvilRegion::new(file);

    for (index, expected_chunk_metadata) in expected_data.iter().enumerate() {
        let chunk_metadata = chunks_metadata[256 + index];

        assert_eq!(&chunk_metadata, expected_chunk_metadata);
        assert_eq!(&region.get_metadata(index as u8, 8), expected_chunk_metadata);
    }
}

#[test]
fn test_read_chunk_data() {
    let mut level_tag = CompoundTag::new();
    level_tag.insert_i32("xPos", 15);
    level_tag.insert_i32("zPos", 3);
    let mut chunk_tag = CompoundTag::new();
    chunk_tag.insert_compound_tag("Level", level_tag);

    let mut region = AnvilRegion::new(Vec::new());
    region.write_chunk(15, 3, chunk_tag, NOW).unwrap();

    let region = AnvilRegion::new(region.into_file());
    let compound_tag = region.read_chunk(15, 3).unwrap();
    let level_tag = compound_tag.get_compound_tag("Level").unwrap();

    assert_eq!(level_tag.get_i32("xPos").unwrap(), 15);
    assert_eq!(level_tag.get_i32("zPos").unwrap(), 3);
}

#[test]
fn test_read_chunk_empty() {
    let region = AnvilRegion::new(vec![0u8; 8192]);
    let load_error = region.read_chunk(0, 0).err().unwrap();

    match load_error {
        ChunkLoadError::ChunkNotFound { chunk_x, chunk_z } => {
            assert_eq!(chunk_x, 0);
            assert_eq!(chunk_z, 0);
        }
        _ => panic!("Expected `ChunkNotFound` but got `{:?}`", load_error),
    }
}

#[test]
fn test_update_metadata() {
    let mut region = AnvilRegion::new(Vec::new());

    let mut metadata = AnvilChunkMetadata::new(500, 10, 0);
    metadata.update_last_modified_timestamp(NOW);

    region.update_metadata(15, 15, metadata);
    let chunks_metadata = AnvilRegion::read_header(region.file()).unwrap();
    let metadata_index = AnvilRegion::metadata_index(15, 15);

    // In memory metadata.
    assert_eq!(region.get_metadata(15, 15), metadata);
    // Written to file metadata.
    assert_eq!(chunks_metadata[metadata_index], metadata);
}

#[test]
fn test_write_chunk_with_file_extend() {
    let mut region = AnvilRegion::new(Vec::new());

    let mut write_compound_tag = CompoundTag::new();
    write_compound_tag.insert_bool("test_bool", true);
    write_compound_tag.insert_str("test_str", "test");

    region.write_chunk(15, 15, write_compound_tag, NOW).unwrap();

    assert_eq!(
        region.file().len() as u64,
        REGION_HEADER_BYTES_LENGTH + REGION_SECTOR_BYTES_LENGTH as u64
    );

    assert_eq!(region.sectors().len(), 3);

    let read_compound_tag = region.read_chunk(15, 15).unwrap();

    assert!(read_compound_tag.get_bool("test_bool").unwrap());
    assert_eq!(read_compound_tag.get_str("test_str").unwrap(), "test");
}

#[test]
fn test_write_chunk_same_sector() {
    let mut region = AnvilRegion::new(Vec::new());

    let mut write_compound_tag_1 = CompoundTag::new();
    write_compound_tag_1.insert_bool("test_bool", true);
    write_compound_tag_1.insert_str("test_str", "test");
    write_compound_tag_1.insert_f32("test_f32", 1.23);

    region.write_chunk(15, 15, write_compound_tag_1, NOW).unwrap();

    let mut write_compound_tag_2 = CompoundTag::new();
    write_compound_tag_2.insert_bool("test_bool", true);
    write_compound_tag_2.insert_str("test_str", "test");

    region.write_chunk(15, 15, write_compound_tag_2, NOW).unwrap();

    assert_eq!(
        region.file().len() as u64,
        REGION_HEADER_BYTES_LENGTH + REGION_SECTOR_BYTES_LENGTH as u64
    );

    assert_eq!(region.sectors().len(), 3);

    let read_compound_tag = region.read_chunk(15, 15).unwrap();

    assert!(read_compound_tag.get_bool("test_bool").unwrap());
    assert_eq!(read_compound_tag.get_str("test_str").unwrap(), "test");
    assert!(!read_compound_tag.contains_key("test_f32"));
}

#[test]
fn test_write_chunk_same_sector_with_file_expand() {
    let mut region = AnvilRegion::new(Vec::new());

    let mut write_compound_tag_1 = CompoundTag::new();
    write_compound_tag_1.insert_bool("test_bool", true);
    write_compound_tag_1.insert_str("test_str", "test");

    region.write_chunk(15, 15, write_compound_tag_1, NOW).unwrap();

    let mut write_compound_tag_2 = CompoundTag::new();
    let mut i32_vec = Vec::new();

    // Extending chunk to second sector.
    // Due compression we need to write more than 1024 ints.
    for i in 0..3000 {
        i32_vec.push(i)
    }

    write_compound_tag_2.insert_i32_vec("test_i32_vec", i32_vec);

    region.write_chunk(15, 15, write_compound_tag_2, NOW).unwrap();

    assert_eq!(
        region.file().len() as u64,
        REGION_HEADER_BYTES_LENGTH + REGION_SECTOR_BYTES_LENGTH as u64 * 2
    );

    assert_eq!(region.sectors().len(), 4);
}

#[test]
fn test_write_chunk_with_insert_in_middle() {
    let mut region = AnvilRegion::new(Vec::new());

    let mut write_compound_tag = CompoundTag::new();
    write_compound_tag.insert_bool("test_bool", true);
    write_compound_tag.insert_str("test_str", "test");

    region.grow(3).unwrap();

    region.mark_range(3, 1, false);

    let length = REGION_HEADER_BYTES_LENGTH + REGION_SECTOR_BYTES_LENGTH as u64 * 3;
    assert_eq!(region.file().len() as u64, length);

    region.write_chunk(15, 15, write_compound_tag, NOW).unwrap();

    assert!(region.sectors().get(4).unwrap());
    assert_eq!(region.file().len() as u64, length);
    assert_eq!(region.sectors().len(), 5);
}

#[test]
fn test_write_chunk_not_enough_gap() {
    let mut region = AnvilRegion::new(Vec::new());

    let mut write_compound_tag_1 = CompoundTag::new();
    write_compound_tag_1.insert_bool("test_bool", true);
    write_compound_tag_1.insert_str("test_str", "test");

    region
        .write_chunk(15, 15, write_compound_tag_1.clone(), NOW)
        .unwrap();

    region.write_chunk(0, 0, write_compound_tag_1, NOW).unwrap();

    let mut write_compound_tag_2 = CompoundTag::new();
    let mut i32_vec = Vec::new();

    // Extending chunk to second sector.
    // Due compression we need to write more than 1024 ints.
    for i in 0..3000 {
        i32_vec.push(i)
    }

    write_compound_tag_2.insert_i32_vec("test_i32_vec", i32_vec);

    region.write_chunk(15, 15, write_compound_tag_2, NOW).unwrap();

    assert_eq!(first_word(region.sectors()), 0b00111011);
    assert_eq!(region.sectors().len(), 6);
    assert_eq!(
        region.file().len() as u64,
        REGION_HEADER_BYTES_LENGTH + REGION_SECTOR_BYTES_LENGTH as u64 * 4
    );
}

#[test]
fn test_used_sectors_only_header() {
    let empty_chunks_metadata = Vec::new();
    let used_sectors = AnvilRegion::used_sectors(8, &empty_chunks_metadata);

    // Two sectors are used for header data.
    assert_eq!(first_word(&used_sectors), 0b00000011);
}

#[test]
fn test_used_sectors_all() {
    let chunks_metadata = vec![AnvilChunkMetadata::new(2, 6, 0)];
    let used_sectors = AnvilRegion::used_sectors(8, &chunks_metadata);

    assert_eq!(first_word(&used_sectors), 0b11111111);
}

#[test]
fn test_used_sectors_partially() {
    let chunks_metadata = vec![
        AnvilChunkMetadata::new(3, 3, 0),
        AnvilChunkMetadata::new(8, 1, 0),
    ];

    let used_sectors = AnvilRegion::used_sectors(10, &chunks_metadata);
    let used_word = first_word(&used_sectors);

    assert_eq!(used_word, 0b100111011);
}

#[test]
fn used_sectors_skips_sectors_beyond_the_file() {
    let chunks_metadata = vec![
        AnvilChunkMetadata::new(6, 5, 0),
        AnvilChunkMetadata::new(4000, 2, 0),
    ];
    let used_sectors = AnvilRegion::used_sectors(8, &chunks_metadata);

    assert_eq!(used_sectors.len(), 8);
    assert_eq!(first_word(&used_sectors), 0b11000011);
    assert_eq!(used_sectors.get(8), None);
}

#[test]
fn open_extends_a_short_file_and_keeps_its_bytes() {
    let region = AnvilRegion::new(vec![7u8; 100]);
    let file = region.into_file();

    assert_eq!(file.len(), 8192);
    assert!(file[..100].iter().all(|byte| *byte == 7));
    assert!(file[100..].iter().all(|byte| *byte == 0));
}

#[test]
fn open_keeps_a_long_file_and_counts_whole_sectors() {
    let region = AnvilRegion::new(vec![0u8; 8192 + 4096 + 100]);

    assert_eq!(region.file().len(), 8192 + 4096 + 100);
    assert_eq!(region.sectors().len(), 3);
    assert_eq!(first_word(region.sectors()), 0b011);
}

#[test]
fn read_header_of_a_short_file_fails() {
    let error = AnvilRegion::read_header(&vec![0u8; 8191]).err().unwrap();

    assert_eq!(error.kind(), std::io::ErrorKind::UnexpectedEof);
}

#[test]
fn written_record_has_the_envelope() {
    let mut region = AnvilRegion::new(Vec::new());
    let payload = vec![9u8, 8, 7];

    region.write_record(1, 0, 2, &payload, NOW).unwrap();

    let file = region.file();
    assert_eq!(file.len(), 8192 + 4096);
    // Length word counts the scheme byte and the payload.
    assert_eq!(&file[8192..8196], &[0, 0, 0, 4]);
    assert_eq!(file[8196], 2);
    assert_eq!(&file[8197..8200], &[9, 8, 7]);
    assert!(file[8200..].iter().all(|byte| *byte == 0));
    // Offset word of slot 1: sector 2, one sector.
    assert_eq!(&file[4..8], &[0, 0, 2, 1]);
    // Timestamp word of slot 1.
    assert_eq!(&file[4096 + 4..4096 + 8], &(NOW as u32).to_be_bytes());
    assert_eq!(region.get_metadata(1, 0), AnvilChunkMetadata::new(2, 1, NOW as u32));
    assert_eq!(region.read_record(1, 0).unwrap(), (2, payload));
}

#[test]
fn record_on_a_sector_boundary_gets_a_sector_of_padding() {
    let mut region = AnvilRegion::new(Vec::new());
    // 4 bytes of length, 1 byte of scheme and 4091 bytes of payload: 4096.
    let payload = vec![1u8; 4091];

    region.write_record(0, 0, 2, &payload, NOW).unwrap();

    assert_eq!(region.get_metadata(0, 0).sectors, 2);
    assert_eq!(region.file().len(), 8192 + 2 * 4096);
    assert!(region.file()[8192 + 4096..].iter().all(|byte| *byte == 0));
    assert_eq!(region.read_record(0, 0).unwrap(), (2, payload));
}

#[test]
fn record_just_below_a_sector_boundary_takes_one_sector() {
    let mut region = AnvilRegion::new(Vec::new());
    let payload = vec![1u8; 4090];

    region.write_record(0, 0, 2, &payload, NOW).unwrap();

    assert_eq!(region.get_metadata(0, 0).sectors, 1);
    assert_eq!(region.file().len(), 8192 + 4096);
    assert_eq!(region.file()[8192 + 4095], 0);
}

#[test]
fn timestamp_is_cut_to_32_bits() {
    let mut metadata = AnvilChunkMetadata::new(2, 1, 0);

    metadata.update_last_modified_timestamp(0x1_0000_0005);

    assert_eq!(metadata, AnvilChunkMetadata::new(2, 1, 5));
}

#[test]
fn overwrite_in_place_keeps_place_length_and_bitmap() {
    let mut region = AnvilRegion::new(Vec::new());
    region.write_record(3, 0, 2, &[1, 2, 3], NOW).unwrap();
    region.write_record(4, 0, 2, &[4, 5, 6], NOW).unwrap();
    let place = region.get_metadata(3, 0).sector_index;
    let other = region.read_record(4, 0).unwrap();

    region.write_record(3, 0, 2, &[7u8; 100], NOW + 1).unwrap();

    assert_eq!(region.get_metadata(3, 0), AnvilChunkMetadata::new(place, 1, (NOW + 1) as u32));
    assert_eq!(region.file().len(), 8192 + 2 * 4096);
    assert_eq!(first_word(region.sectors()), 0b1111);
    assert_eq!(region.read_record(3, 0).unwrap(), (2, vec![7u8; 100]));
    assert_eq!(region.read_record(4, 0).unwrap(), other);
}

#[test]
fn growth_behind_a_free_tail_takes_the_tail() {
    let mut region = AnvilRegion::new(Vec::new());
    region.write_record(0, 0, 2, &[1u8; 10], NOW).unwrap();
    assert_eq!(region.get_metadata(0, 0), AnvilChunkMetadata::new(2, 1, NOW as u32));

    // Two sectors are needed: the one of the chunk is released, and one is
    // appended.
    region.write_record(0, 0, 2, &[1u8; 5000], NOW).unwrap();

    assert_eq!(region.get_metadata(0, 0), AnvilChunkMetadata::new(2, 2, NOW as u32));
    assert_eq!(region.file().len(), 8192 + 2 * 4096);
    assert_eq!(region.sectors().len(), 4);
    assert_eq!(first_word(region.sectors()), 0b1111);

    // The next chunk goes behind it.
    region.write_record(1, 0, 2, &[2u8; 10], NOW).unwrap();

    assert_eq!(region.get_metadata(1, 0).sector_index, 4);
    assert_eq!(region.read_record(0, 0).unwrap(), (2, vec![1u8; 5000]));
}

#[test]
fn freed_gap_is_used_again() {
    let mut region = AnvilRegion::new(Vec::new());
    region.write_record(0, 0, 2, &[1u8; 5000], NOW).unwrap();
    region.write_record(1, 0, 2, &[2u8; 10], NOW).unwrap();
    assert_eq!(region.get_metadata(0, 0).sector_index, 2);
    assert_eq!(region.get_metadata(1, 0).sector_index, 4);

    // Chunk (0, 0) moves to the end and leaves sectors 2 and 3 free.
    region.write_record(0, 0, 2, &[1u8; 9000], NOW).unwrap();
    assert_eq!(region.get_metadata(0, 0), AnvilChunkMetadata::new(5, 3, NOW as u32));
    assert_eq!(first_word(region.sectors()), 0b11110011);
    let length = region.file().len();

    // A chunk of one sector goes to the start of the gap.
    region.write_record(2, 0, 2, &[3u8; 10], NOW).unwrap();

    assert_eq!(region.get_metadata(2, 0), AnvilChunkMetadata::new(2, 1, NOW as u32));
    assert_eq!(first_word(region.sectors()), 0b11110111);
    assert_eq!(region.file().len(), length);
    assert_eq!(region.read_record(0, 0).unwrap(), (2, vec![1u8; 9000]));
    assert_eq!(region.read_record(1, 0).unwrap(), (2, vec![2u8; 10]));
    assert_eq!(region.read_record(2, 0).unwrap(), (2, vec![3u8; 10]));
}

#[test]
fn find_place_returns_the_entry_of_the_place() {
    let mut region = AnvilRegion::new(Vec::new());

    let metadata = region.find_place(5, 5, 4096).unwrap();

    assert_eq!(metadata, AnvilChunkMetadata::new(2, 2, 0));
    assert_eq!(region.sectors().len(), 4);
    assert_eq!(region.file().len(), 8192 + 2 * 4096);
    // The header is not touched.
    assert_eq!(region.get_metadata(5, 5), AnvilChunkMetadata::new(0, 0, 0));
}

#[test]
fn entry_beyond_the_file_is_not_overwritten_in_place() {
    let stale = AnvilChunkMetadata::new(1000, 1, 7);
    let file = file_with_header(&[(0, stale)], 3);
    let mut region = AnvilRegion::new(file);
    assert_eq!(region.get_metadata(0, 0), stale);

    region.write_record(0, 0, 2, &[1u8; 10], NOW).unwrap();

    assert_eq!(region.get_metadata(0, 0), AnvilChunkMetadata::new(2, 1, NOW as u32));
    assert_eq!(region.file().len(), 3 * 4096);
}

#[test]
fn release_never_frees_the_header() {
    let overlapping = AnvilChunkMetadata::new(0, 3, 7);
    let file = file_with_header(&[(0, overlapping)], 3);
    let mut region = AnvilRegion::new(file);

    region.write_record(0, 0, 2, &[1u8; 5000], NOW).unwrap();

    assert_eq!(region.get_metadata(0, 0), AnvilChunkMetadata::new(2, 2, NOW as u32));
    assert_eq!(first_word(region.sectors()), 0b1111);
    assert_eq!(region.file().len(), 4 * 4096);
}

#[test]
fn too_long_record_is_refused_and_changes_nothing() {
    let mut region = AnvilRegion::new(Vec::new());
    // 255 sectors would be needed for 254 * 4096 + 4095 bytes; one more
    // byte asks for 256.
    let payload = vec![0u8; 255 * 4096 - 5];

    let save_error = region.write_record(0, 0, 2, &payload, NOW).err().unwrap();

    match save_error {
        ChunkSaveError::LengthExceedsMaximum { length } => {
            assert_eq!(length, 255 * 4096);
        }
        _ => panic!("Expected `LengthExceedsMaximum` but got `{:?}`", save_error),
    }
    assert_eq!(region.into_file(), vec![0u8; 8192]);
}

#[test]
fn longest_record_takes_255_sectors() {
    let mut region = AnvilRegion::new(Vec::new());
    let payload = vec![5u8; 255 * 4096 - 6];

    region.write_record(31, 31, 1, &payload, NOW).unwrap();

    assert_eq!(region.get_metadata(31, 31), AnvilChunkMetadata::new(2, 255, NOW as u32));
    assert_eq!(region.file().len(), 257 * 4096);
    assert_eq!(region.read_record(31, 31).unwrap(), (1, payload));
}

#[test]
fn length_word_beyond_the_sectors_is_an_error() {
    let mut file = file_with_header(&[(0, AnvilChunkMetadata::new(2, 1, 0))], 3);
    file[8192..8196].copy_from_slice(&4097u32.to_be_bytes());
    let region = AnvilRegion::new(file);

    let load_error = region.read_chunk(0, 0).err().unwrap();

    match load_error {
        ChunkLoadError::LengthExceedsMaximum {
            length,
            maximum_length,
        } => {
            assert_eq!(length, 4097);
            assert_eq!(maximum_length, 4096);
        }
        _ => panic!("Expected `LengthExceedsMaximum` but got `{:?}`", load_error),
    }
}

#[test]
fn length_word_of_the_sectors_is_read() {
    let mut file = file_with_header(&[(0, AnvilChunkMetadata::new(2, 1, 0))], 4);
    file[8192..8196].copy_from_slice(&4096u32.to_be_bytes());
    file[8196] = 9;
    let region = AnvilRegion::new(file);

    let (compression_scheme, payload) = region.read_record(0, 0).unwrap();

    assert_eq!(compression_scheme, 9);
    assert_eq!(payload, vec![0u8; 4095]);
}

#[test]
fn unknown_compression_scheme_is_an_error() {
    let mut region = AnvilRegion::new(Vec::new());
    region.write_record(0, 0, 3, &[1, 2, 3], NOW).unwrap();

    let load_error = region.read_chunk(0, 0).err().unwrap();

    match load_error {
        ChunkLoadError::UnsupportedCompressionScheme { compression_scheme } => {
            assert_eq!(compression_scheme, 3);
        }
        _ => panic!(
            "Expected `UnsupportedCompressionScheme` but got `{:?}`",
            load_error
        ),
    }
}

#[test]
fn zeroed_record_has_scheme_zero_and_an_empty_payload() {
    let file = file_with_header(&[(0, AnvilChunkMetadata::new(2, 1, 0))], 3);
    let region = AnvilRegion::new(file);

    assert_eq!(region.read_record(0, 0).unwrap(), (0, Vec::new()));
    match region.read_chunk(0, 0).err().unwrap() {
        ChunkLoadError::UnsupportedCompressionScheme { compression_scheme } => {
            assert_eq!(compression_scheme, 0);
        }
        load_error => panic!(
            "Expected `UnsupportedCompressionScheme` but got `{:?}`",
            load_error
        ),
    }
}

#[test]
fn record_behind_the_end_of_the_file_is_a_read_error() {
    let file = file_with_header(&[(0, AnvilChunkMetadata::new(3, 1, 0))], 3);
    let region = AnvilRegion::new(file);

    match region.read_chunk(0, 0).err().unwrap() {
        ChunkLoadError::ReadError { io_error } => {
            assert_eq!(io_error.kind(), std::io::ErrorKind::UnexpectedEof);
        }
        load_error => panic!("Expected `ReadError` but got `{:?}`", load_error),
    }
}

#[test]
fn record_cut_by_the_end_of_the_file_is_a_read_error() {
    let mut file = file_with_header(&[(0, AnvilChunkMetadata::new(2, 1, 0))], 3);
    file[8192..8196].copy_from_slice(&100u32.to_be_bytes());
    file.truncate(8192 + 50);
    let region = AnvilRegion::new(file);

    match region.read_record(0, 0).err().unwrap() {
        ChunkLoadError::ReadError { io_error } => {
            assert_eq!(io_error.kind(), std::io::ErrorKind::UnexpectedEof);
        }
        load_error => panic!("Expected `ReadError` but got `{:?}`", load_error),
    }
}

#[test]
fn payload_that_is_no_tag_is_a_decode_error() {
    let mut region = AnvilRegion::new(Vec::new());
    region.write_record(0, 0, 2, &[1, 2, 3], NOW).unwrap();
    region.write_record(1, 0, 1, &[1, 2, 3], NOW).unwrap();

    for chunk_x in 0..2 {
        match region.read_chunk(chunk_x, 0).err().unwrap() {
            ChunkLoadError::TagDecodeError { .. } => {}
            load_error => panic!("Expected `TagDecodeError` but got `{:?}`", load_error),
        }
    }
}

#[test]
fn gzip_record_is_decoded() {
    let mut payload = Vec::new();
    nbt::encode::write_gzip_compound_tag(&mut payload, &small_tag()).unwrap();
    let mut region = AnvilRegion::new(Vec::new());
    region.write_record(7, 9, 1, &payload, NOW).unwrap();

    let read_compound_tag = region.read_chunk(7, 9).unwrap();

    assert!(read_compound_tag.get_bool("test_bool").unwrap());
    assert_eq!(read_compound_tag.get_str("test_str").unwrap(), "test");
}

#[test]
fn written_chunk_is_a_zlib_record() {
    let mut region = AnvilRegion::new(Vec::new());
    region.write_chunk(7, 9, small_tag(), NOW).unwrap();

    let (compression_scheme, payload) = region.read_record(7, 9).unwrap();
    let mut expected = Vec::new();
    nbt::encode::write_zlib_compound_tag(&mut expected, &small_tag()).unwrap();

    assert_eq!(compression_scheme, 2);
    assert_eq!(payload, expected);
}

#[test]
fn chunks_come_back_after_the_file_is_opened_again() {
    let mut region = AnvilRegion::new(Vec::new());
    region.write_chunk(0, 0, small_tag(), NOW).unwrap();
    region.write_chunk(31, 31, large_tag(), NOW + 1).unwrap();
    region.write_chunk(0, 0, large_tag(), NOW + 2).unwrap();
    let entries = [
        region.get_metadata(0, 0),
        region.get_metadata(31, 31),
        region.get_metadata(1, 0),
    ];
    let word = first_word(region.sectors());

    let region = AnvilRegion::new(region.into_file());

    assert_eq!(region.get_metadata(0, 0), entries[0]);
    assert_eq!(region.get_metadata(31, 31), entries[1]);
    assert_eq!(region.get_metadata(1, 0), entries[2]);
    // The sector that chunk (0, 0) left is free again.
    assert_eq!(word, 0b1111011);
    assert_eq!(first_word(region.sectors()), word);
    let first = region.read_chunk(0, 0).unwrap();
    let last = region.read_chunk(31, 31).unwrap();
    assert_eq!(first.get_i32_vec("test_i32_vec").unwrap().len(), 3000);
    assert_eq!(last.get_i32_vec("test_i32_vec").unwrap()[2999], 2999);
}

#[test]
fn grow_appends_used_sectors_of_zero_bytes() {
    let mut region = AnvilRegion::new(Vec::new());

    region.grow(2).unwrap();

    assert_eq!(region.sectors().len(), 4);
    assert_eq!(first_word(region.sectors()), 0b1111);
    assert_eq!(region.into_file(), vec![0u8; 4 * 4096]);
}

#[test]
fn grow_beyond_the_limit_fails_and_changes_nothing() {
    let mut region = AnvilRegion::new(Vec::new());

    let error = region.grow(16777215).err().unwrap();

    assert_eq!(error.kind(), std::io::ErrorKind::FileTooLarge);
    assert_eq!(region.sectors().len(), 2);
    assert_eq!(region.file().len(), 8192);
}

#[test]
fn mark_range_skips_the_header_and_sectors_beyond_the_file() {
    let mut region = AnvilRegion::new(Vec::new());
    region.grow(3).unwrap();

    region.mark_range(0, 100, false);
    assert_eq!(first_word(region.sectors()), 0b00011);

    region.mark_range(3, usize::MAX, true);
    assert_eq!(first_word(region.sectors()), 0b11011);
    assert_eq!(region.sectors().len(), 5);
}
