use anvil_region::bitmap::SectorBitmap;
use anvil_region::metadata::AnvilChunkMetadata;

fn bitmap_of(bits: &[bool]) -> SectorBitmap {
    let mut bitmap = SectorBitmap::from_header(bits.len().max(2), &[]);
    for (index, bit) in bits.iter().enumerate() {
        bitmap.mark_range(index, 1, *bit);
    }
    bitmap
}

#[test]
fn first_fit_takes_the_first_run_that_is_long_enough() {
    // Sectors 2 is free, 3 in use, 4 to 6 free, 7 in use, 8 and 9 free.
    let bitmap = bitmap_of(&[
        true, true, false, true, false, false, false, true, false, false,
    ]);

    assert_eq!(bitmap.first_fit(0), Some(0));
    assert_eq!(bitmap.first_fit(1), Some(2));
    assert_eq!(bitmap.first_fit(2), Some(4));
    assert_eq!(bitmap.first_fit(3), Some(4));
    assert_eq!(bitmap.first_fit(4), None);
    assert_eq!(bitmap.trailing_free(), 2);
}

#[test]
fn first_fit_of_a_full_bitmap_is_none() {
    let bitmap = bitmap_of(&[true, true, true]);

    assert_eq!(bitmap.first_fit(1), None);
    assert_eq!(bitmap.trailing_free(), 0);
}

#[test]
fn trailing_free_stops_at_the_header() {
    let bitmap = bitmap_of(&[true, true, false, false, false]);

    assert_eq!(bitmap.trailing_free(), 3);
    assert_eq!(bitmap.first_fit(3), Some(2));
    assert_eq!(bitmap.first_fit(4), None);
}

#[test]
fn bitmap_grows_by_used_sectors() {
    let mut bitmap = bitmap_of(&[true, true, false]);

    bitmap.grow(2);

    assert_eq!(bitmap.len(), 5);
    assert_eq!(bitmap.get(2), Some(false));
    assert_eq!(bitmap.get(3), Some(true));
    assert_eq!(bitmap.get(4), Some(true));
    assert_eq!(bitmap.get(5), None);
}

#[test]
fn bitmap_from_header_marks_the_sectors_of_the_entries() {
    let bitmap = SectorBitmap::from_header(
        6,
        &[
            AnvilChunkMetadata::new(0, 0, 0),
            AnvilChunkMetadata::new(4, 1, 0),
        ],
    );

    let bits: Vec<bool> = (0..6).map(|index| bitmap.get(index).unwrap()).collect();
    assert_eq!(bits, vec![true, true, false, false, true, false]);
}
