//! Putting a frame together from the tiles that arrive.
//!
//! The assembler knows how many tiles a frame was cut into, takes them in
//! whatever order they arrive, copies the counts of each to its rows in the
//! frame and says after each how far the frame has come. Taking fewer tiles
//! than were cut leaves rows unfilled; the assembler will not take more.

use crate::partition::lemma_tiles_cover_frame;
use crate::partition::split_count;
use crate::partition::tile_count;
use crate::partition::tile_end;
use crate::partition::tile_of_row;
use crate::partition::tile_start;
use crate::trans::FramePart;
use vstd::prelude::*;

verus! {

/// The frame after `counts` were copied to it from row `first_row` on.
pub open spec fn placed(frame: Seq<u16>, width: int, first_row: int, counts: Seq<u16>) -> Seq<
    u16,
> {
    Seq::new(
        frame.len(),
        |k: int|
            if first_row * width <= k < first_row * width + counts.len() {
                counts[k - first_row * width]
            } else {
                frame[k]
            },
    )
}

/// The frame after the tiles `arrivals` were copied to it, first to last.
pub open spec fn assembled(frame: Seq<u16>, width: int, arrivals: Seq<FramePart>) -> Seq<u16>
    decreases arrivals.len(),
{
    if arrivals.len() == 0 {
        frame
    } else {
        placed(
            assembled(frame, width, arrivals.drop_last()),
            width,
            arrivals.last().range().start() as int,
            arrivals.last().vector()@,
        )
    }
}

/// Whether two tiles share no row.
pub open spec fn rows_apart(a: FramePart, b: FramePart) -> bool {
    a.range().end() <= b.range().start() || b.range().end() <= a.range().start()
}

/// Whether every tile of `arrivals` fits a frame of `width` by `height`
/// pixels and no two of them share a row.
pub open spec fn arrivals_fit(arrivals: Seq<FramePart>, width: int, height: int) -> bool {
    &&& forall|i: int|
        0 <= i < arrivals.len() ==> (#[trigger] arrivals[i]).fits(width) && arrivals[i].range().end()
            <= height
    &&& forall|i: int, j: int|
        0 <= i < arrivals.len() && 0 <= j < arrivals.len() && i != j ==> rows_apart(
            #[trigger] arrivals[i],
            #[trigger] arrivals[j],
        )
}

/// Where the pixel in row `row`, column `col` lies in the counts of a tile
/// that starts at `first_row`, and where it lies in the frame.
pub proof fn lemma_pixel_index(width: int, first_row: int, end_row: int, row: int, col: int)
    requires
        0 <= first_row <= row < end_row,
        0 <= col < width,
    ensures
        0 <= (row - first_row) * width + col < (end_row - first_row) * width,
        first_row * width <= row * width + col < end_row * width,
        row * width + col - first_row * width == (row - first_row) * width + col,
{
    assert((row - first_row) * width == row * width - first_row * width) by (nonlinear_arith);
    assert((end_row - first_row) * width == end_row * width - first_row * width)
        by (nonlinear_arith);
    assert(first_row * width <= row * width) by (nonlinear_arith)
        requires
            first_row <= row,
            0 <= width,
    ;
    assert((row + 1) * width <= end_row * width) by (nonlinear_arith)
        requires
            row + 1 <= end_row,
            0 <= width,
    ;
    assert((row + 1) * width == row * width + width) by (nonlinear_arith);
}

/// A tile that was copied to the frame can be read back from it, pixel by
/// pixel.
pub proof fn lemma_placed_reads_back(
    frame: Seq<u16>,
    width: int,
    height: int,
    part: FramePart,
    row: int,
    col: int,
)
    requires
        frame.len() == width * height,
        part.fits(width),
        part.range().end() <= height,
        part.range().start() <= row < part.range().end(),
        0 <= col < width,
    ensures
        0 <= row * width + col < frame.len(),
        placed(frame, width, part.range().start() as int, part.vector()@)[row * width + col]
            == part.count_at(width, row, col),
{
    lemma_pixel_index(width, part.range().start() as int, part.range().end() as int, row, col);
    assert(part.range().end() * width <= height * width) by (nonlinear_arith)
        requires
            part.range().end() <= height,
            0 <= width,
    ;
    assert(height * width == width * height) by (nonlinear_arith);
}

/// A tile that is copied to the frame leaves the rows of every tile apart
/// from it as they were.
pub proof fn lemma_placed_keeps_other_rows(
    frame: Seq<u16>,
    width: int,
    height: int,
    part: FramePart,
    other: FramePart,
    row: int,
    col: int,
)
    requires
        frame.len() == width * height,
        part.fits(width),
        other.fits(width),
        other.range().end() <= height,
        rows_apart(part, other),
        other.range().start() <= row < other.range().end(),
        0 <= col < width,
    ensures
        0 <= row * width + col < frame.len(),
        placed(frame, width, part.range().start() as int, part.vector()@)[row * width + col]
            == frame[row * width + col],
{
    let s = part.range().start() as int;
    let e = part.range().end() as int;
    lemma_pixel_index(width, other.range().start() as int, other.range().end() as int, row, col);
    assert(other.range().end() * width <= height * width) by (nonlinear_arith)
        requires
            other.range().end() <= height,
            0 <= width,
    ;
    assert(height * width == width * height) by (nonlinear_arith);
    assert(s * width + (e - s) * width == e * width) by (nonlinear_arith);
    if e <= other.range().start() {
        assert(e * width <= other.range().start() * width) by (nonlinear_arith)
            requires
                e <= other.range().start(),
                0 <= width,
        ;
    } else {
        assert(other.range().end() * width <= s * width) by (nonlinear_arith)
            requires
                other.range().end() <= s,
                0 <= width,
        ;
    }
}

/// Copying tiles keeps the frame's size.
pub proof fn lemma_assembled_len(frame: Seq<u16>, width: int, arrivals: Seq<FramePart>)
    ensures
        assembled(frame, width, arrivals).len() == frame.len(),
    decreases arrivals.len(),
{
    if arrivals.len() > 0 {
        lemma_assembled_len(frame, width, arrivals.drop_last());
    }
}

/// The order of arrival does not matter: when tiles that share no row were
/// copied to a frame, in any order, every pixel of every one of them is in
/// the frame.
pub proof fn lemma_assembled_holds_every_tile(
    frame: Seq<u16>,
    width: int,
    height: int,
    arrivals: Seq<FramePart>,
    i: int,
    row: int,
    col: int,
)
    requires
        frame.len() == width * height,
        arrivals_fit(arrivals, width, height),
        0 <= i < arrivals.len(),
        arrivals[i].range().start() <= row < arrivals[i].range().end(),
        0 <= col < width,
    ensures
        0 <= row * width + col < frame.len(),
        assembled(frame, width, arrivals)[row * width + col] == arrivals[i].count_at(
            width,
            row,
            col,
        ),
    decreases arrivals.len(),
{
    let earlier = arrivals.drop_last();
    let so_far = assembled(frame, width, earlier);
    let last = arrivals.last();
    lemma_assembled_len(frame, width, earlier);
    assert(last == arrivals[arrivals.len() - 1]);
    if i == arrivals.len() - 1 {
        lemma_placed_reads_back(so_far, width, height, last, row, col);
    } else {
        assert(arrivals_fit(earlier, width, height)) by {
            assert forall|a: int| 0 <= a < earlier.len() implies (#[trigger] earlier[a]).fits(
                width,
            ) && earlier[a].range().end() <= height by {
                assert(earlier[a] == arrivals[a]);
            }
            assert forall|a: int, b: int|
                0 <= a < earlier.len() && 0 <= b < earlier.len() && a != b implies rows_apart(
                #[trigger] earlier[a],
                #[trigger] earlier[b],
            ) by {
                assert(earlier[a] == arrivals[a]);
                assert(earlier[b] == arrivals[b]);
            }
        }
        assert(earlier[i] == arrivals[i]);
        lemma_assembled_holds_every_tile(frame, width, height, earlier, i, row, col);
        assert(rows_apart(arrivals[arrivals.len() - 1], arrivals[i]));
        lemma_placed_keeps_other_rows(so_far, width, height, last, arrivals[i], row, col);
    }
}

/// Whether tile `t` of the partition of `height` rows by `split` is among
/// the arrivals.
pub open spec fn tile_arrived(arrivals: Seq<FramePart>, height: int, split: int, t: int) -> bool {
    exists|i: int|
        0 <= i < arrivals.len() && (#[trigger] arrivals[i]).range().start() == tile_start(
            height,
            split,
            t,
        ) && arrivals[i].range().end() == tile_end(height, split, t)
}

/// A frame whose tiles have all arrived is filled: when every tile of the
/// partition is among the arrivals, in whatever order, each pixel of the
/// frame holds the count that the tile of its row has for it.
pub proof fn lemma_partition_fills_frame(
    frame: Seq<u16>,
    width: int,
    height: int,
    split: int,
    arrivals: Seq<FramePart>,
    row: int,
    col: int,
)
    requires
        frame.len() == width * height,
        1 <= split,
        arrivals_fit(arrivals, width, height),
        forall|t: int|
            0 <= t < tile_count(height, split) ==> tile_arrived(arrivals, height, split, t),
        0 <= row < height,
        0 <= col < width,
    ensures
        exists|i: int|
            0 <= i < arrivals.len() && (#[trigger] arrivals[i]).range().start() <= row
                < arrivals[i].range().end() && assembled(frame, width, arrivals)[row * width
                + col] == arrivals[i].count_at(width, row, col),
{
    let t = tile_of_row(height, split, row);
    lemma_tiles_cover_frame(height, split, row);
    assert(tile_arrived(arrivals, height, split, t));
    let i = choose|i: int|
        0 <= i < arrivals.len() && (#[trigger] arrivals[i]).range().start() == tile_start(
            height,
            split,
            t,
        ) && arrivals[i].range().end() == tile_end(height, split, t);
    lemma_assembled_holds_every_tile(frame, width, height, arrivals, i, row, col);
}

/// A frame in the making.
pub struct FrameAssembler {
    width: usize,
    height: usize,
    parts: usize,
    received: usize,
    frame: Vec<u16>,
}

impl FrameAssembler {
    /// The counts of the frame, row by row, as contracts see them.
    pub closed spec fn spec_frame(&self) -> &Vec<u16> {
        &self.frame
    }

    /// Width and height of the frame in pixels, as contracts see them.
    pub closed spec fn spec_size(&self) -> (usize, usize) {
        (self.width, self.height)
    }

    /// Number of tiles that the frame was cut into, as contracts see it.
    pub closed spec fn spec_parts(&self) -> usize {
        self.parts
    }

    /// Number of tiles taken so far, as contracts see it.
    pub closed spec fn spec_received(&self) -> usize {
        self.received
    }

    /// The assembler is in order: the frame has one count per pixel, and no
    /// more tiles were taken than the frame was cut into.
    pub open spec fn wf(&self) -> bool {
        &&& self.frame()@.len() == self.size().0 * self.size().1
        &&& self.received() <= self.parts()
    }

    /// An assembler for a frame of `width` by `height` pixels that is cut
    /// into tiles by `split_work`. Every count starts at zero.
    pub fn new(width: usize, height: usize, split_work: usize) -> (ret: FrameAssembler)
        requires
            split_work >= 1,
            tile_count(height as int, split_work as int) <= usize::MAX,
            width * height <= usize::MAX,
        ensures
            ret.wf(),
            ret.size() == (width, height),
            ret.parts() == tile_count(height as int, split_work as int),
            ret.received() == 0,
            forall|k: int| 0 <= k < ret.frame()@.len() ==> ret.frame()@[k] == 0,
    {
        let parts: usize = split_count(height, split_work);
        let count: usize = width * height;
        let mut frame: Vec<u16> = Vec::new();
        let mut k: usize = 0;
        while k < count
            invariant
                k <= count,
                frame@.len() == k,
                forall|j: int| 0 <= j < k ==> frame@[j] == 0,
            decreases count - k,
        {
            frame.push(0);
            k = k + 1;
        }
        FrameAssembler { width, height, parts, received: 0, frame }
    }

    /// Width and height of the frame in pixels.
    #[verifier::when_used_as_spec(spec_size)]
    pub fn size(&self) -> (ret: (usize, usize))
        ensures
            ret == self.spec_size(),
    {
        (self.width, self.height)
    }

    /// Number of tiles that the frame was cut into.
    #[verifier::when_used_as_spec(spec_parts)]
    pub fn parts(&self) -> (ret: usize)
        ensures
            ret == self.spec_parts(),
    {
        self.parts
    }

    /// Number of tiles taken so far.
    #[verifier::when_used_as_spec(spec_received)]
    pub fn received(&self) -> (ret: usize)
        ensures
            ret == self.spec_received(),
    {
        self.received
    }

    /// The counts of the frame, row by row.
    #[verifier::when_used_as_spec(spec_frame)]
    pub fn frame(&self) -> (ret: &Vec<u16>)
        ensures
            ret == self.spec_frame(),
    {
        &self.frame
    }

    /// Whether as many tiles were taken as the frame was cut into.
    pub fn is_complete(&self) -> (ret: bool)
        ensures
            ret == (self.received() == self.parts()),
    {
        self.received == self.parts
    }

    /// Whether `frame_part` can be taken: a tile is still awaited, and this
    /// one holds a count for each pixel of its rows and lies within the
    /// frame.
    pub open spec fn awaits(&self, frame_part: &FramePart) -> bool {
        &&& self.received() < self.parts()
        &&& frame_part.fits(self.size().0 as int)
        &&& frame_part.range().end() <= self.size().1
    }

    /// Whether `frame_part` can be taken.
    pub fn can_accept(&self, frame_part: &FramePart) -> (ret: bool)
        requires
            self.wf(),
        ensures
            ret == self.awaits(frame_part),
    {
        let lines = frame_part.range();
        if self.received >= self.parts || lines.start() > lines.end() || lines.end()
            > self.height {
            return false;
        }
        let rows: usize = lines.end() - lines.start();
        let size: usize = self.frame.len();
        assert(0 <= rows * self.width <= self.height * self.width) by (nonlinear_arith)
            requires
                0 <= rows <= self.height,
                0 <= self.width,
        ;
        assert(self.height * self.width == self.width * self.height) by (nonlinear_arith);
        frame_part.vector().len() == rows * self.width
    }

    /// Takes a tile: copies its counts to its rows in the frame and returns
    /// the progress, tiles taken and tiles awaited in all.
    pub fn accept(&mut self, frame_part: &FramePart) -> (ret: (usize, usize))
        requires
            old(self).wf(),
            old(self).awaits(frame_part),
        ensures
            final(self).wf(),
            final(self).size() == old(self).size(),
            final(self).parts() == old(self).parts(),
            final(self).received() == old(self).received() + 1,
            final(self).frame()@ == placed(
                old(self).frame()@,
                old(self).size().0 as int,
                frame_part.range().start() as int,
                frame_part.vector()@,
            ),
            ret == (final(self).received(), final(self).parts()),
    {
        let counts: &Vec<u16> = frame_part.vector();
        let first_row: usize = frame_part.range().start();
        let ghost before = self.frame@;
        let ghost end_row = frame_part.range().end() as int;
        let size: usize = self.frame.len();
        proof {
            assert(first_row * self.width + (end_row - first_row) * self.width == end_row
                * self.width) by (nonlinear_arith);
            assert(end_row * self.width <= self.height * self.width) by (nonlinear_arith)
                requires
                    end_row <= self.height,
                    0 <= self.width,
            ;
            assert(self.height * self.width == self.width * self.height) by (nonlinear_arith);
            assert(0 <= first_row * self.width) by (nonlinear_arith)
                requires
                    0 <= first_row,
                    0 <= self.width,
            ;
        }
        let absolute: usize = first_row * self.width;
        let mut i: usize = 0;
        while i < counts.len()
            invariant
                0 <= i <= counts@.len(),
                absolute + counts@.len() <= size,
                size == before.len(),
                self.frame@.len() == before.len(),
                self.width == old(self).width,
                self.height == old(self).height,
                self.parts == old(self).parts,
                self.received == old(self).received,
                self.frame@ =~= placed(before, 1, absolute as int, counts@.take(i as int)),
            decreases counts@.len() - i,
        {
            self.frame.set(absolute + i, counts[i]);
            i = i + 1;
        }
        assert(counts@.take(counts@.len() as int) =~= counts@);
        assert(self.frame@ =~= placed(before, self.width as int, first_row as int, counts@));
        self.received = self.received + 1;
        (self.received, self.parts)
    }
}

} // verus!
