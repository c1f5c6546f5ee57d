//! Computing a tile.
//!
//! A tile is computed pixel by pixel, row after row and within a row from
//! left to right. What is counted at a pixel is the caller's business: the
//! caller gives the coordinate of every column and of every row of the tile
//! and the function that turns a pair of them into a count.

use crate::math::Range;
use crate::trans::FramePart;
use vstd::prelude::*;

verus! {

/// Whether `part` is the tile of the rows `lines` whose pixel in each row
/// and column holds what `count` gives for the coordinates of that column
/// and that row.
pub open spec fn is_frame_part_of<X, Y, F: Fn(X, Y) -> u16>(
    part: FramePart,
    lines: Range<usize>,
    re_axis: Seq<X>,
    im_axis: Seq<Y>,
    count: F,
) -> bool {
    &&& part.range() == lines
    &&& part.fits(re_axis.len() as int)
    &&& forall|row: int, col: int|
        lines.start() <= row < lines.end() && 0 <= col < re_axis.len() ==> call_ensures(
            count,
            (re_axis[col], im_axis[row - lines.start()]),
            #[trigger] part.count_at(re_axis.len() as int, row, col),
        )
}

/// Computes the tile of the rows `lines`. Column `col` of the frame has the
/// coordinate `re_axis[col]`, and the `k`-th row of the tile has the
/// coordinate `im_axis[k]`; `convergence_iterations` is called once for each
/// pixel, row by row, and its counts are kept in that order.
pub fn get_frame_part<X: Copy, Y: Copy, F: Fn(X, Y) -> u16>(
    lines: Range<usize>,
    re_axis: &Vec<X>,
    im_axis: &Vec<Y>,
    convergence_iterations: F,
) -> (ret: FramePart)
    requires
        lines.start() <= lines.end(),
        im_axis@.len() == lines.end() - lines.start(),
        forall|row: int, col: int|
            0 <= row < im_axis@.len() && 0 <= col < re_axis@.len() ==> call_requires(
                convergence_iterations,
                (#[trigger] re_axis@[col], #[trigger] im_axis@[row]),
            ),
    ensures
        is_frame_part_of(ret, lines, re_axis@, im_axis@, convergence_iterations),
{
    let width: usize = re_axis.len();
    let rows: usize = im_axis.len();
    let mut frame_part: Vec<u16> = Vec::new();
    let mut row: usize = 0;
    while row < rows
        invariant
            0 <= row <= rows,
            width == re_axis@.len(),
            rows == im_axis@.len(),
            frame_part@.len() == row * width,
            forall|r: int, c: int|
                0 <= r < im_axis@.len() && 0 <= c < re_axis@.len() ==> call_requires(
                    convergence_iterations,
                    (#[trigger] re_axis@[c], #[trigger] im_axis@[r]),
                ),
            forall|r: int, c: int|
                0 <= r < row && 0 <= c < width ==> call_ensures(
                    convergence_iterations,
                    (re_axis@[c], im_axis@[r]),
                    #[trigger] frame_part@[r * width + c],
                ),
        decreases rows - row,
    {
        let ghost before_row = frame_part@;
        let mut col: usize = 0;
        while col < width
            invariant
                0 <= row < rows,
                0 <= col <= width,
                width == re_axis@.len(),
                rows == im_axis@.len(),
                before_row.len() == row * width,
                frame_part@.len() == row * width + col,
                frame_part@.take(before_row.len() as int) == before_row,
                forall|r: int, c: int|
                    0 <= r < im_axis@.len() && 0 <= c < re_axis@.len() ==> call_requires(
                        convergence_iterations,
                        (#[trigger] re_axis@[c], #[trigger] im_axis@[r]),
                    ),
                forall|c: int|
                    0 <= c < col ==> call_ensures(
                        convergence_iterations,
                        (re_axis@[c], im_axis@[row as int]),
                        #[trigger] frame_part@[row * width + c],
                    ),
            decreases width - col,
        {
            let ghost so_far = frame_part@;
            let count: u16 = convergence_iterations(re_axis[col], im_axis[row]);
            frame_part.push(count);
            proof {
                assert(frame_part@.take(before_row.len() as int) =~= so_far.take(
                    before_row.len() as int,
                ));
                assert forall|c: int| 0 <= c < col + 1 implies call_ensures(
                    convergence_iterations,
                    (re_axis@[c], im_axis@[row as int]),
                    #[trigger] frame_part@[row * width + c],
                ) by {
                    if c < col {
                        assert(frame_part@[row * width + c] == so_far[row * width + c]);
                    }
                }
            }
            col = col + 1;
        }
        proof {
            assert((row + 1) * width == row * width + width) by (nonlinear_arith);
            assert forall|r: int, c: int| 0 <= r < row + 1 && 0 <= c < width implies call_ensures(
                convergence_iterations,
                (re_axis@[c], im_axis@[r]),
                #[trigger] frame_part@[r * width + c],
            ) by {
                if r < row {
                    assert(r * width + c < row * width) by (nonlinear_arith)
                        requires
                            0 <= r < row,
                            0 <= c < width,
                    ;
                    assert(frame_part@[r * width + c] == frame_part@.take(
                        before_row.len() as int,
                    )[r * width + c]);
                }
            }
        }
        row = row + 1;
    }
    let ret = FramePart::new(lines, frame_part);
    proof {
        let w = re_axis@.len() as int;
        assert forall|r: int, c: int|
            lines.start() <= r < lines.end() && 0 <= c < re_axis@.len() implies call_ensures(
            convergence_iterations,
            (re_axis@[c], im_axis@[r - lines.start()]),
            #[trigger] ret.count_at(w, r, c),
        ) by {
            let k = r - lines.start();
            assert(ret.count_at(w, r, c) == frame_part@[k * width + c]);
        }
    }
    ret
}

} // verus!
