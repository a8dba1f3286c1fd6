use anvil_region::region::AnvilRegion;
use anvil_region::{AnvilChunkProvider, ChunkLoadError, ChunkSaveError};
use nbt::CompoundTag;

const NOW: u64 = 1570215508;

fn chunk_tag(chunk_x: i32, chunk_z: i32) -> CompoundTag {
    let mut level_tag = CompoundTag::new();
    level_tag.insert_i32("xPos", chunk_x);
    level_tag.insert_i32("zPos", chunk_z);
    let mut chunk_tag = CompoundTag::new();
    chunk_tag.insert_compound_tag("Level", level_tag);
    chunk_tag
}

#[test]
fn test_load_chunk_no_folder() {
    let chunk_provider = AnvilChunkProvider::new("no-folder");
    let load_error = chunk_provider.load_chunk(4, 4, None).err().unwrap();

    match load_error {
        ChunkLoadError::RegionNotFound { region_x, region_z } => {
            assert_eq!(region_x, 0);
            assert_eq!(region_z, 0);
        }
        _ => panic!("Expected `RegionNotFound` but got `{:?}", load_error),
    }
}

#[test]
fn test_load_chunk_no_region() {
    let chunk_provider = AnvilChunkProvider::new("test/region");
    let load_error = chunk_provider.load_chunk(100, 100, None).err().unwrap();

    match load_error {
        ChunkLoadError::RegionNotFound { region_x, region_z } => {
            assert_eq!(region_x, 3);
            assert_eq!(region_z, 3);
        }
        _ => panic!("Expected `RegionNotFound` but got `{:?}", load_error),
    }
}

#[test]
fn test_load_chunk_chunk_not_found() {
    let chunk_provider = AnvilChunkProvider::new("test/region");
    let region_file = chunk_provider
        .save_chunk(4, 2, chunk_tag(4, 2), Vec::new(), NOW)
        .unwrap();
    let load_error = chunk_provider
        .load_chunk(15, 14, Some(region_file))
        .err()
        .unwrap();

    match load_error {
        ChunkLoadError::ChunkNotFound { chunk_x, chunk_z } => {
            assert_eq!(chunk_x, 15);
            assert_eq!(chunk_z, 14);
        }
        _ => panic!("Expected `ChunkNotFound` but got `{:?}", load_error),
    }
}

#[test]
fn region_not_found_names_the_region_of_a_negative_chunk() {
    let chunk_provider = AnvilChunkProvider::new("no-folder");

    match chunk_provider.load_chunk(-1, -33, None).err().unwrap() {
        ChunkLoadError::RegionNotFound { region_x, region_z } => {
            assert_eq!(region_x, -1);
            assert_eq!(region_z, -2);
        }
        load_error => panic!("Expected `RegionNotFound` but got `{:?}", load_error),
    }
}

#[test]
fn saved_chunk_is_loaded_again() {
    let chunk_provider = AnvilChunkProvider::new("test/region");

    let region_file = chunk_provider
        .save_chunk(31, 16, chunk_tag(31, 16), Vec::new(), NOW)
        .unwrap();
    let region_file = chunk_provider
        .save_chunk(4, 2, chunk_tag(4, 2), region_file, NOW)
        .unwrap();

    assert_eq!(region_file.len(), 8192 + 2 * 4096);
    for (chunk_x, chunk_z) in [(31, 16), (4, 2)] {
        let chunk_compound_tag = chunk_provider
            .load_chunk(chunk_x, chunk_z, Some(region_file.clone()))
            .unwrap();
        let level_compound_tag = chunk_compound_tag.get_compound_tag("Level").unwrap();

        assert_eq!(level_compound_tag.get_i32("xPos").unwrap(), chunk_x);
        assert_eq!(level_compound_tag.get_i32("zPos").unwrap(), chunk_z);
    }
}

#[test]
fn chunk_with_negative_coordinates_goes_to_its_local_slot() {
    let chunk_provider = AnvilChunkProvider::new("test/region");

    let region_file = chunk_provider
        .save_chunk(-1, -32, chunk_tag(-1, -32), Vec::new(), NOW)
        .unwrap();

    let region = AnvilRegion::new(region_file.clone());
    assert!(!region.get_metadata(31, 0).is_empty());
    let chunk_compound_tag = chunk_provider
        .load_chunk(-1, -32, Some(region_file))
        .unwrap();
    let level_compound_tag = chunk_compound_tag.get_compound_tag("Level").unwrap();
    assert_eq!(level_compound_tag.get_i32("xPos").unwrap(), -1);
    assert_eq!(level_compound_tag.get_i32("zPos").unwrap(), -32);
}

#[test]
fn chunk_that_compresses_badly_is_too_long() {
    let chunk_provider = AnvilChunkProvider::new("test/region");
    // Values without a pattern, so that zlib cannot make them short.
    let mut state: u64 = 0x2545F4914F6CDD1D;
    let mut values = Vec::new();
    for _ in 0..200000 {
        state ^= state << 13;
        state ^= state >> 7;
        state ^= state << 17;
        values.push(state as i64);
    }
    let mut chunk_compound_tag = CompoundTag::new();
    chunk_compound_tag.insert_i64_vec("noise", values);

    let save_error = chunk_provider
        .save_chunk(0, 0, chunk_compound_tag, Vec::new(), NOW)
        .err()
        .unwrap();

    match save_error {
        ChunkSaveError::LengthExceedsMaximum { length } => {
            assert!(length >= 255 * 4096);
        }
        _ => panic!("Expected `LengthExceedsMaximum` but got `{:?}`", save_error),
    }
}

#[test]
fn region_files_are_named_by_their_coordinates() {
    assert_eq!(AnvilChunkProvider::region_file_name(0, 0), "r.0.0.mca");
    assert_eq!(AnvilChunkProvider::region_file_name(3, 3), "r.3.3.mca");
    assert_eq!(AnvilChunkProvider::region_file_name(-1, 12), "r.-1.12.mca");
    assert_eq!(AnvilChunkProvider::region_file_name(10, -205), "r.10.-205.mca");
    assert_eq!(
        AnvilChunkProvider::region_file_name(i32::MAX, i32::MIN),
        "r.2147483647.-2147483648.mca"
    );
}

#[test]
fn provider_keeps_its_folder() {
    let chunk_provider = AnvilChunkProvider::new("test/region");

    assert_eq!(chunk_provider.folder_path(), "test/region");
}

#[test]
fn errors_of_input_and_output_become_errors_of_load_and_save() {
    let io_error = std::io::Error::from(std::io::ErrorKind::PermissionDenied);
    match ChunkLoadError::from(io_error) {
        ChunkLoadError::ReadError { io_error } => {
            assert_eq!(io_error.kind(), std::io::ErrorKind::PermissionDenied);
        }
        load_error => panic!("Expected `ReadError` but got `{:?}`", load_error),
    }

    let io_error = std::io::Error::from(std::io::ErrorKind::PermissionDenied);
    match ChunkSaveError::from(io_error) {
        ChunkSaveError::WriteError { io_error } => {
            assert_eq!(io_error.kind(), std::io::ErrorKind::PermissionDenied);
        }
        save_error => panic!("Expected `WriteError` but got `{:?}`", save_error),
    }

    let tag_decode_error = nbt::decode::TagDecodeError::UnknownTagType { tag_type_id: 99 };
    match ChunkLoadError::from(tag_decode_error) {
        ChunkLoadError::TagDecodeError {
            tag_decode_error: nbt::decode::TagDecodeError::UnknownTagType { tag_type_id },
        } => {
            assert_eq!(tag_type_id, 99);
        }
        load_error => panic!("Expected `TagDecodeError` but got `{:?}`", load_error),
    }
}
