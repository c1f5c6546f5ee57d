use mandelbrot::math::Range;
use mandelbrot::partition::full_split;
use mandelbrot::partition::partition;
use mandelbrot::partition::split_count;

fn bounds(tiles: &Vec<Range<usize>>) -> Vec<(usize, usize)> {
    tiles.iter().map(|t| (t.start(), t.end())).collect()
}

#[test]
fn partition_without_leftover_has_split_tiles() {
    let tiles = partition(12, 4);
    assert_eq!(bounds(&tiles), vec![(0, 3), (3, 6), (6, 9), (9, 12)]);
    assert_eq!(split_count(12, 4), 4);
}

#[test]
fn partition_with_leftover_has_trailing_tile() {
    let tiles = partition(10, 3);
    assert_eq!(bounds(&tiles), vec![(0, 3), (3, 6), (6, 9), (9, 10)]);
    assert_eq!(split_count(10, 3), 4);
}

#[test]
fn partition_into_one_is_whole_frame() {
    let tiles = partition(4, 1);
    assert_eq!(bounds(&tiles), vec![(0, 4)]);
    assert_eq!(split_count(4, 1), 1);
}

#[test]
fn partition_into_as_many_as_rows_gives_single_rows() {
    let tiles = partition(5, 5);
    assert_eq!(bounds(&tiles), vec![(0, 1), (1, 2), (2, 3), (3, 4), (4, 5)]);
}

#[test]
fn partition_with_more_blocks_than_rows_leaves_all_rows_to_trailing_tile() {
    let tiles = partition(3, 5);
    assert_eq!(
        bounds(&tiles),
        vec![(0, 0), (0, 0), (0, 0), (0, 0), (0, 0), (0, 3)]
    );
    assert_eq!(split_count(3, 5), 6);
}

#[test]
fn partition_of_empty_frame_has_only_empty_tiles() {
    let tiles = partition(0, 3);
    assert_eq!(bounds(&tiles), vec![(0, 0), (0, 0), (0, 0)]);
    assert_eq!(split_count(0, 3), 3);
}

#[test]
fn partition_tiles_are_disjoint_and_cover_every_row() {
    for height in 1..40usize {
        for split in 1..=height {
            let tiles = partition(height, split);
            assert_eq!(tiles.len(), split_count(height, split));
            let mut seen = vec![0usize; height];
            for tile in tiles.iter() {
                assert!(tile.start() <= tile.end());
                assert!(tile.end() <= height);
                for row in tile.iterable() {
                    seen[row] += 1;
                }
            }
            assert!(seen.iter().all(|&n| n == 1), "height {height} split {split}");
        }
    }
}

#[test]
fn partition_tiles_lie_end_to_end() {
    let tiles = partition(1000, 7);
    assert_eq!(tiles.len(), 8);
    assert_eq!(tiles[0].start(), 0);
    for pair in tiles.windows(2) {
        assert_eq!(pair[0].end(), pair[1].start());
    }
    assert_eq!(tiles[7].end(), 1000);
    assert_eq!(tiles[7].start(), 994);
}

#[test]
fn split_count_adds_one_only_for_leftover() {
    assert_eq!(split_count(1000, 16), 17);
    assert_eq!(split_count(1024, 16), 16);
    assert_eq!(split_count(1, 1), 1);
}

#[test]
fn full_split_is_threads_times_blocks_per_thread() {
    assert_eq!(full_split(16, 1), Some(16));
    assert_eq!(full_split(8, 4), Some(32));
    assert_eq!(full_split(0, 9), Some(0));
    assert_eq!(full_split(usize::MAX, 1), Some(usize::MAX));
}

#[test]
fn full_split_that_does_not_fit_is_none() {
    assert_eq!(full_split(usize::MAX, 2), None);
    assert_eq!(full_split(1 << (usize::BITS / 2), 1 << (usize::BITS / 2)), None);
}
