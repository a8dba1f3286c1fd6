use anvil_region::format::{
    region_chunk_coordinate, region_coordinate, sectors_required, CHUNK_MAXIMUM_BYTES_LENGTH,
    GZIP_COMPRESSION_TYPE, REGION_CHUNKS, REGION_CHUNKS_METADATA_LENGTH, ZLIB_COMPRESSION_TYPE,
};
use anvil_region::metadata::AnvilChunkMetadata;
use anvil_region::region::AnvilRegion;

#[test]
fn negative_chunk_coordinates_fold_towards_negative_infinity() {
    assert_eq!(region_coordinate(-1), -1);
    assert_eq!(region_chunk_coordinate(-1), 31);
    assert_eq!(region_coordinate(-32), -1);
    assert_eq!(region_chunk_coordinate(-32), 0);
    assert_eq!(region_coordinate(-33), -2);
    assert_eq!(region_chunk_coordinate(-33), 31);
    assert_eq!(region_coordinate(i32::MIN), -67108864);
    assert_eq!(region_chunk_coordinate(i32::MIN), 0);
}

#[test]
fn chunk_coordinates_fold_into_regions_of_32() {
    assert_eq!(region_coordinate(0), 0);
    assert_eq!(region_chunk_coordinate(0), 0);
    assert_eq!(region_coordinate(31), 0);
    assert_eq!(region_chunk_coordinate(31), 31);
    assert_eq!(region_coordinate(32), 1);
    assert_eq!(region_chunk_coordinate(32), 0);
    assert_eq!(region_coordinate(100), 3);
    assert_eq!(region_chunk_coordinate(100), 4);
    assert_eq!(region_coordinate(i32::MAX), 67108863);
    assert_eq!(region_chunk_coordinate(i32::MAX), 31);
}

#[test]
fn sectors_required_is_one_more_than_the_quotient() {
    assert_eq!(sectors_required(0), 1);
    assert_eq!(sectors_required(4095), 1);
    assert_eq!(sectors_required(4096), 2);
    assert_eq!(sectors_required(4097), 2);
    assert_eq!(sectors_required(8192), 3);
    assert_eq!(sectors_required(CHUNK_MAXIMUM_BYTES_LENGTH), 257);
}

#[test]
fn slot_is_x_plus_32_z() {
    assert_eq!(AnvilRegion::metadata_index(0, 0), 0);
    assert_eq!(AnvilRegion::metadata_index(31, 0), 31);
    assert_eq!(AnvilRegion::metadata_index(0, 1), 32);
    assert_eq!(AnvilRegion::metadata_index(15, 15), 495);
    assert_eq!(AnvilRegion::metadata_index(31, 31), 1023);
}

#[test]
fn constants_of_the_format() {
    assert_eq!(REGION_CHUNKS, 1024);
    assert_eq!(REGION_CHUNKS_METADATA_LENGTH, 2 * REGION_CHUNKS);
    assert_eq!(CHUNK_MAXIMUM_BYTES_LENGTH, 4096 * 256);
    assert_eq!(GZIP_COMPRESSION_TYPE, 1);
    assert_eq!(ZLIB_COMPRESSION_TYPE, 2);
}

#[test]
fn offset_word_packs_index_and_count() {
    let metadata = AnvilChunkMetadata::new(61, 2, 1570215508);

    assert_eq!(metadata.to_offset_word(), (61 << 8) | 2);
    assert_eq!(
        AnvilChunkMetadata::from_words((61 << 8) | 2, 1570215508),
        metadata
    );
    assert_eq!(
        AnvilChunkMetadata::from_words(0xFFFF_FFFF, 1),
        AnvilChunkMetadata::new(0xFF_FFFF, 255, 1)
    );
    assert_eq!(AnvilChunkMetadata::new(0x100_0001, 3, 0).to_offset_word(), 0x103);
}

#[test]
fn empty_slot_has_no_sectors() {
    assert!(AnvilChunkMetadata::default().is_empty());
    assert!(AnvilChunkMetadata::new(5, 0, 9).is_empty());
    assert!(!AnvilChunkMetadata::new(5, 1, 9).is_empty());
    assert_eq!(AnvilChunkMetadata::default(), AnvilChunkMetadata::new(0, 0, 0));
}
