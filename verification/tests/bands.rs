use mandelbrot::bands::{band_at, partition, rows_per_band, Band};

fn band(start_row: u32, end_row: u32) -> Band {
    Band { start_row, end_row }
}

#[test]
fn one_band_is_the_whole_image() {
    assert_eq!(partition(4, 1), vec![band(0, 4)]);
    assert_eq!(partition(1, 1), vec![band(0, 1)]);
    assert_eq!(partition(u32::MAX, 1), vec![band(0, u32::MAX)]);
}

#[test]
fn even_split() {
    assert_eq!(partition(8, 4), vec![band(0, 2), band(2, 4), band(4, 6), band(6, 8)]);
    assert_eq!(partition(4, 4), vec![band(0, 1), band(1, 2), band(2, 3), band(3, 4)]);
}

#[test]
fn last_band_takes_the_remainder() {
    assert_eq!(partition(10, 3), vec![band(0, 3), band(3, 6), band(6, 10)]);
    assert_eq!(partition(7, 2), vec![band(0, 3), band(3, 7)]);
    assert_eq!(partition(11, 4), vec![band(0, 2), band(2, 4), band(4, 6), band(6, 11)]);
}

#[test]
fn more_bands_than_rows_leaves_empty_bands() {
    assert_eq!(
        partition(4, 8),
        vec![
            band(0, 1),
            band(1, 2),
            band(2, 3),
            band(3, 4),
            band(4, 4),
            band(4, 4),
            band(4, 4),
            band(4, 4)
        ]
    );
    assert_eq!(partition(1, 3), vec![band(0, 1), band(1, 1), band(1, 1)]);
    assert_eq!(partition(2, 3), vec![band(0, 1), band(1, 2), band(2, 2)]);
}

#[test]
fn no_rows_gives_empty_bands() {
    assert_eq!(partition(0, 1), vec![band(0, 0)]);
    assert_eq!(partition(0, 3), vec![band(0, 0), band(0, 0), band(0, 0)]);
}

#[test]
fn rows_per_band_is_the_even_share_and_at_least_one() {
    assert_eq!(rows_per_band(10, 3), 3);
    assert_eq!(rows_per_band(10, 10), 1);
    assert_eq!(rows_per_band(10, 11), 1);
    assert_eq!(rows_per_band(0, 5), 1);
    assert_eq!(rows_per_band(u32::MAX, 1), u32::MAX);
    assert_eq!(rows_per_band(u32::MAX, 2), u32::MAX / 2);
    assert_eq!(rows_per_band(5, usize::MAX), 1);
}

#[test]
fn band_at_matches_partition() {
    for height in 0..30u32 {
        for chunks in 1..40usize {
            let bands = partition(height, chunks);
            assert_eq!(bands.len(), chunks);
            for (index, b) in bands.iter().enumerate() {
                assert_eq!(band_at(height, chunks, index), *b);
            }
        }
    }
}

#[test]
fn band_at_with_huge_counts() {
    assert_eq!(band_at(u32::MAX, usize::MAX, 0), band(0, 1));
    assert_eq!(band_at(u32::MAX, usize::MAX, 12345), band(12345, 12346));
    assert_eq!(band_at(u32::MAX, usize::MAX, usize::MAX - 1), band(u32::MAX, u32::MAX));
    assert_eq!(band_at(u32::MAX, 3, 2), band(2 * (u32::MAX / 3), u32::MAX));
    assert_eq!(band_at(u32::MAX, 2, 0), band(0, u32::MAX / 2));
    assert_eq!(band_at(u32::MAX, 2, 1), band(u32::MAX / 2, u32::MAX));
}

#[test]
fn bands_cover_every_row_exactly_once() {
    for height in 1..48u32 {
        for chunks in 1..64usize {
            let bands = partition(height, chunks);
            assert_eq!(bands[0].start_row, 0);
            assert_eq!(bands[chunks - 1].end_row, height);
            for pair in bands.windows(2) {
                assert_eq!(pair[0].end_row, pair[1].start_row);
            }
            for b in &bands {
                assert!(b.start_row <= b.end_row && b.end_row <= height);
            }
            for row in 0..height {
                let holders = bands.iter().filter(|b| b.start_row <= row && row < b.end_row).count();
                assert_eq!(holders, 1);
            }
        }
    }
}

#[test]
fn eight_bands_over_four_rows() {
    let bands = partition(4, 8);
    let rows: u32 = bands.iter().map(|b| b.end_row - b.start_row).sum();
    assert_eq!(rows, 4);
    assert_eq!(bands.last().map(|b| b.end_row), Some(4));
}
