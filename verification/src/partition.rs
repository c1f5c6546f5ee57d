//! Cutting the pixel rows of a frame into tiles.
//!
//! A frame of `height` rows is cut into `split` blocks of `height / split`
//! rows each; rows left over form one more, trailing tile. The number of
//! tiles is what a consumer has to wait for.

use crate::math::Range;
use vstd::prelude::*;

verus! {

/// Rows in each of the regular blocks.
pub open spec fn block_rows(height: int, split: int) -> int {
    height / split
}

/// Rows that the regular blocks leave uncovered.
pub open spec fn leftover_rows(height: int, split: int) -> int {
    height % split
}

/// How many tiles a frame is cut into: `split`, and one more when rows are
/// left over.
pub open spec fn tile_count(height: int, split: int) -> int {
    if leftover_rows(height, split) != 0 {
        split + 1
    } else {
        split
    }
}

/// First row of tile `i`.
pub open spec fn tile_start(height: int, split: int, i: int) -> int {
    i * block_rows(height, split)
}

/// One past the last row of tile `i`: regular blocks end where the next one
/// starts, the trailing tile ends with the frame.
pub open spec fn tile_end(height: int, split: int, i: int) -> int {
    if i < split {
        (i + 1) * block_rows(height, split)
    } else {
        height
    }
}

/// Whether `row` belongs to tile `i`.
pub open spec fn tile_has_row(height: int, split: int, i: int, row: int) -> bool {
    tile_start(height, split, i) <= row < tile_end(height, split, i)
}

/// Whether `tiles` is the partition of `height` rows by `split`.
pub open spec fn is_partition(tiles: Seq<Range<usize>>, height: int, split: int) -> bool {
    &&& tiles.len() == tile_count(height, split)
    &&& forall|i: int|
        0 <= i < tiles.len() ==> (#[trigger] tiles[i]).start() == tile_start(height, split, i)
            && tiles[i].end() == tile_end(height, split, i)
}

/// The regular blocks never reach past the frame: block `i` of `split` ends
/// at or before row `height`, and blocks are laid out in increasing order.
pub proof fn lemma_blocks_fit(height: int, split: int, i: int)
    requires
        0 <= height,
        1 <= split,
        0 <= i <= split,
    ensures
        0 <= block_rows(height, split),
        0 <= i * block_rows(height, split) <= height,
        split * block_rows(height, split) + leftover_rows(height, split) == height,
        0 <= leftover_rows(height, split) < split,
{
    let b = height / split;
    assert(height == split * b + height % split && 0 <= height % split < split) by {
        vstd::arithmetic::div_mod::lemma_fundamental_div_mod(height, split);
    }
    assert(0 <= b) by {
        vstd::arithmetic::div_mod::lemma_div_pos_is_pos(height, split);
    }
    assert(0 <= i * b <= split * b) by (nonlinear_arith)
        requires
            0 <= i <= split,
            0 <= b,
    ;
}

/// Tiles are laid end to end: each starts where the one before it ended, the
/// first starts at row 0 and the last ends at row `height`.
pub proof fn lemma_tiles_are_contiguous(height: int, split: int, i: int)
    requires
        0 <= height,
        1 <= split,
        0 <= i < tile_count(height, split),
    ensures
        tile_start(height, split, 0) == 0,
        tile_start(height, split, i) <= tile_end(height, split, i),
        i + 1 < tile_count(height, split) ==> tile_end(height, split, i) == tile_start(
            height,
            split,
            i + 1,
        ),
        i + 1 == tile_count(height, split) ==> tile_end(height, split, i) == height,
        0 <= tile_start(height, split, i),
        tile_end(height, split, i) <= height,
{
    let b = block_rows(height, split);
    lemma_blocks_fit(height, split, i);
    lemma_blocks_fit(height, split, split);
    if i < split {
        lemma_blocks_fit(height, split, i + 1);
        assert((i + 1) * b == i * b + b) by (nonlinear_arith);
    }
    assert(0 * b == 0);
}

/// Tiles are ordered: a tile with a smaller index ends at or before the start
/// of any tile with a larger index.
pub proof fn lemma_tiles_are_ordered(height: int, split: int, i: int, j: int)
    requires
        0 <= height,
        1 <= split,
        0 <= i < j < tile_count(height, split),
    ensures
        tile_end(height, split, i) <= tile_start(height, split, j),
{
    let b = block_rows(height, split);
    lemma_blocks_fit(height, split, i);
    assert((i + 1) * b <= j * b) by (nonlinear_arith)
        requires
            i + 1 <= j,
            0 <= b,
    ;
}

/// No row belongs to two different tiles.
pub proof fn lemma_tiles_are_disjoint(height: int, split: int, i: int, j: int, row: int)
    requires
        0 <= height,
        1 <= split,
        0 <= i < tile_count(height, split),
        0 <= j < tile_count(height, split),
        i != j,
    ensures
        !(tile_has_row(height, split, i, row) && tile_has_row(height, split, j, row)),
{
    if i < j {
        lemma_tiles_are_ordered(height, split, i, j);
    } else {
        lemma_tiles_are_ordered(height, split, j, i);
    }
}

/// Index of the tile that holds `row`.
pub open spec fn tile_of_row(height: int, split: int, row: int) -> int {
    if block_rows(height, split) > 0 && row < split * block_rows(height, split) {
        row / block_rows(height, split)
    } else {
        split
    }
}

/// Every row of the frame belongs to a tile, and tiles hold rows of the frame
/// only: the union of the tiles is exactly `[0, height)`.
pub proof fn lemma_tiles_cover_frame(height: int, split: int, row: int)
    requires
        0 <= height,
        1 <= split,
    ensures
        0 <= row < height ==> 0 <= tile_of_row(height, split, row) < tile_count(height, split)
            && tile_has_row(height, split, tile_of_row(height, split, row), row),
        forall|i: int|
            0 <= i < tile_count(height, split) && #[trigger] tile_has_row(height, split, i, row)
                ==> 0 <= row < height,
{
    let b = block_rows(height, split);
    lemma_blocks_fit(height, split, split);
    assert forall|i: int|
        0 <= i < tile_count(height, split) && #[trigger] tile_has_row(
            height,
            split,
            i,
            row,
        ) implies 0 <= row < height by {
        lemma_tiles_are_contiguous(height, split, i);
    }
    if 0 <= row < height {
        if b > 0 && row < split * b {
            let k = row / b;
            assert(row == b * k + row % b && 0 <= row % b < b) by {
                vstd::arithmetic::div_mod::lemma_fundamental_div_mod(row, b);
            }
            assert(0 <= k) by {
                vstd::arithmetic::div_mod::lemma_div_pos_is_pos(row, b);
            }
            assert(k < split) by (nonlinear_arith)
                requires
                    b * k <= row,
                    row < split * b,
                    b > 0,
            ;
            assert((k + 1) * b == b * k + b && k * b == b * k) by (nonlinear_arith);
        } else {
            if b > 0 {
                assert(split * b <= row);
            } else {
                assert(b == 0);
                assert(split * b == 0) by (nonlinear_arith)
                    requires
                        b == 0,
                ;
            }
            assert(leftover_rows(height, split) != 0);
        }
    }
}

/// The split factor of a generation: `thread_split` blocks for each of
/// `threads` threads. `None` where the product does not fit the machine.
pub fn full_split(threads: usize, thread_split: usize) -> (ret: Option<usize>)
    ensures
        ret == if threads * thread_split <= usize::MAX {
            Some((threads * thread_split) as usize)
        } else {
            None::<usize>
        },
{
    threads.checked_mul(thread_split)
}

/// The number of tiles that `partition` yields for a frame of `height` rows.
pub fn split_count(height: usize, split_work: usize) -> (ret: usize)
    requires
        split_work >= 1,
        tile_count(height as int, split_work as int) <= usize::MAX,
    ensures
        ret == tile_count(height as int, split_work as int),
{
    let leftovers: usize = height % split_work;
    if leftovers != 0 {
        split_work + 1
    } else {
        split_work
    }
}

/// Cuts rows `[0, height)` into tiles: `split_work` blocks of
/// `height / split_work` rows, then the leftover rows, if any, as one
/// trailing tile.
pub fn partition(height: usize, split_work: usize) -> (tiles: Vec<Range<usize>>)
    requires
        split_work >= 1,
    ensures
        is_partition(tiles@, height as int, split_work as int),
{
    let part_size: usize = height / split_work;
    let leftovers: usize = height % split_work;
    let mut tiles: Vec<Range<usize>> = Vec::new();
    let mut i: usize = 0;
    while i < split_work
        invariant
            split_work >= 1,
            part_size == block_rows(height as int, split_work as int),
            0 <= i <= split_work,
            tiles@.len() == i,
            forall|k: int|
                0 <= k < i ==> (#[trigger] tiles@[k]).start() == tile_start(
                    height as int,
                    split_work as int,
                    k,
                ) && tiles@[k].end() == tile_end(height as int, split_work as int, k),
        decreases split_work - i,
    {
        proof {
            lemma_blocks_fit(height as int, split_work as int, i as int);
            lemma_blocks_fit(height as int, split_work as int, i as int + 1);
        }
        let range = Range::new(i * part_size, (i + 1) * part_size);
        tiles.push(range);
        i = i + 1;
    }
    if leftovers != 0 {
        proof {
            lemma_blocks_fit(height as int, split_work as int, split_work as int);
        }
        let tmp: usize = split_work * part_size;
        let range = Range::new(tmp, tmp + leftovers);
        tiles.push(range);
    }
    tiles
}

} // verus!
