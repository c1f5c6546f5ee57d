//! Tiles of iteration counts and their way onto a pixel surface.
//!
//! A tile carries the counts of a run of pixel rows, row by row. A surface
//! holds four bytes per pixel, blue first, then green, then red, then one
//! byte that is never touched. Writing a tile paints its counts, each through
//! a colour ramp, at the place that its first row gives it.

use crate::math::Range;
use vstd::prelude::*;

verus! {

/// A display colour.
#[derive(Copy, Clone, Debug, PartialEq, Eq, Structural)]
pub struct Color {
    pub r: u8,
    pub g: u8,
    pub b: u8,
}

/// The colour of points that never escape.
pub open spec fn black() -> Color {
    Color { r: 0, g: 0, b: 0 }
}

/// The step on the hue wheel that belongs to an iteration count: four times
/// the count, kept to sixteen bits.
pub open spec fn hue_step_of(iterations: u16) -> int {
    (iterations * 4) % 0x10000
}

/// The step on the hue wheel that belongs to an iteration count.
pub fn hue_step(iterations: u16) -> (ret: u16)
    ensures
        ret == hue_step_of(iterations),
{
    let step: u16 = iterations << 2;
    assert(iterations << 2 == (iterations * 4) % 0x10000) by (bit_vector);
    step
}

/// The colour of a pixel: black where the count reached the limit, else the
/// ramp's colour for that count.
pub open spec fn color_of(iterations: u16, max_iterations: u16, ramp: Seq<Color>) -> Color {
    if iterations == max_iterations {
        black()
    } else {
        ramp[iterations as int]
    }
}

/// Whether the ramp has a colour for every count of `counts` that is below
/// the limit.
pub open spec fn ramp_covers(counts: Seq<u16>, max_iterations: u16, ramp: Seq<Color>) -> bool {
    forall|i: int|
        0 <= i < counts.len() && #[trigger] counts[i] != max_iterations ==> counts[i]
            < ramp.len()
}

/// The colour of a pixel with the given count.
pub fn determine_color(iterations: u16, max_iterations: u16, ramp: &Vec<Color>) -> (ret: Color)
    requires
        iterations != max_iterations ==> iterations < ramp@.len(),
    ensures
        ret == color_of(iterations, max_iterations, ramp@),
{
    if iterations == max_iterations {
        Color { r: 0, g: 0, b: 0 }
    } else {
        ramp[iterations as usize]
    }
}

/// A tile: the iteration counts of the pixel rows `lines`, row by row.
pub struct FramePart {
    lines: Range<usize>,
    it_vector: Vec<u16>,
}

impl FramePart {
    /// The rows of the tile, as contracts see them.
    pub closed spec fn spec_range(&self) -> Range<usize> {
        self.lines
    }

    /// The counts of the tile, as contracts see them.
    pub closed spec fn spec_vector(&self) -> &Vec<u16> {
        &self.it_vector
    }

    /// Whether the tile holds one count for each pixel of its rows in a frame
    /// `width` pixels wide.
    pub open spec fn fits(&self, width: int) -> bool {
        &&& self.range().start() <= self.range().end()
        &&& self.vector()@.len() == (self.range().end() - self.range().start()) * width
    }

    /// The count of the pixel in row `row`, column `col`, of a tile that fits
    /// a frame `width` pixels wide.
    pub open spec fn count_at(&self, width: int, row: int, col: int) -> u16 {
        self.vector()@[(row - self.range().start()) * width + col]
    }

    /// A tile of the rows `lines` with the counts `it_vector`.
    pub fn new(lines: Range<usize>, it_vector: Vec<u16>) -> (ret: FramePart)
        ensures
            ret.range() == lines,
            ret.vector()@ == it_vector@,
    {
        FramePart { lines, it_vector }
    }

    /// The rows of the tile.
    #[verifier::when_used_as_spec(spec_range)]
    pub fn range(&self) -> (ret: Range<usize>)
        ensures
            ret == self.spec_range(),
    {
        self.lines
    }

    /// The counts of the tile, row by row.
    #[verifier::when_used_as_spec(spec_vector)]
    pub fn vector(&self) -> (ret: &Vec<u16>)
        ensures
            ret == self.spec_vector(),
    {
        &self.it_vector
    }
}

/// The bytes of a surface after `colors` were painted from byte `offset` on:
/// pixel `i` of them takes the four bytes from `offset + 4 * i`, blue, green
/// and red in that order, and leaves the fourth as it was.
pub open spec fn painted(pixels: Seq<u8>, offset: int, colors: Seq<Color>) -> Seq<u8> {
    Seq::new(
        pixels.len(),
        |k: int|
            if offset <= k < offset + 4 * colors.len() {
                let c = colors[(k - offset) / 4];
                let channel = (k - offset) % 4;
                if channel == 0 {
                    c.b
                } else if channel == 1 {
                    c.g
                } else if channel == 2 {
                    c.r
                } else {
                    pixels[k]
                }
            } else {
                pixels[k]
            },
    )
}

/// The colours of a run of counts.
pub open spec fn colors_of(counts: Seq<u16>, max_iterations: u16, ramp: Seq<Color>) -> Seq<Color> {
    Seq::new(counts.len(), |i: int| color_of(counts[i], max_iterations, ramp))
}

/// The byte at which the pixels of row `row` start on a surface `width`
/// pixels wide.
pub open spec fn row_offset(row: int, width: int) -> int {
    row * width * 4
}

/// A surface in memory, `width` by `height` pixels of four bytes each.
pub struct SurfaceWriter {
    width: u32,
    height: u32,
    pixels: Vec<u8>,
}

impl SurfaceWriter {
    /// The bytes of the surface, as contracts see them.
    pub closed spec fn spec_pixels(&self) -> &Vec<u8> {
        &self.pixels
    }

    /// Width and height in pixels, as contracts see them.
    pub closed spec fn spec_get_size(&self) -> (u32, u32) {
        (self.width, self.height)
    }

    /// The surface holds four bytes for each of its pixels.
    pub open spec fn wf(&self) -> bool {
        self.pixels()@.len() == self.get_size().0 * self.get_size().1 * 4
    }

    /// A surface of the given size with every byte zero.
    pub fn new_blank(width: u32, height: u32) -> (ret: SurfaceWriter)
        requires
            width * height * 4 <= usize::MAX,
        ensures
            ret.wf(),
            ret.get_size() == (width, height),
            forall|k: int| 0 <= k < ret.pixels()@.len() ==> ret.pixels()@[k] == 0,
    {
        assert(width * height >= 0) by (nonlinear_arith)
            requires
                width >= 0,
                height >= 0,
        ;
        let count: usize = (width as usize) * (height as usize) * 4;
        let mut pixels: Vec<u8> = Vec::new();
        let mut k: usize = 0;
        while k < count
            invariant
                k <= count,
                pixels@.len() == k,
                forall|j: int| 0 <= j < k ==> pixels@[j] == 0,
            decreases count - k,
        {
            pixels.push(0);
            k = k + 1;
        }
        SurfaceWriter { width, height, pixels }
    }

    /// A surface of the given size over bytes that exist already. `None`
    /// unless there are four bytes for each pixel.
    pub fn new(width: u32, height: u32, pixels: Vec<u8>) -> (ret: Option<SurfaceWriter>)
        ensures
            ret is Some <==> pixels@.len() == width * height * 4,
            ret is Some ==> ret->0.wf() && ret->0.get_size() == (width, height)
                && ret->0.pixels()@ == pixels@,
    {
        assert(width * height >= 0) by (nonlinear_arith)
            requires
                width >= 0,
                height >= 0,
        ;
        assert(width * height <= 0xffff_ffff * 0xffff_ffff) by (nonlinear_arith)
            requires
                0 <= width <= 0xffff_ffff,
                0 <= height <= 0xffff_ffff,
        ;
        let wide: u128 = (width as u128) * (height as u128) * 4;
        if pixels.len() as u128 == wide {
            Some(SurfaceWriter { width, height, pixels })
        } else {
            None
        }
    }

    /// Width and height in pixels.
    #[verifier::when_used_as_spec(spec_get_size)]
    pub fn get_size(&self) -> (ret: (u32, u32))
        ensures
            ret == self.spec_get_size(),
    {
        (self.width, self.height)
    }

    /// The bytes of the surface.
    #[verifier::when_used_as_spec(spec_pixels)]
    pub fn pixels(&self) -> (ret: &Vec<u8>)
        ensures
            ret == self.spec_pixels(),
    {
        &self.pixels
    }

    /// Whether a tile can be painted: its pixels, from its first row on, lie
    /// on the surface, and the ramp has a colour for each of its counts
    /// below the limit.
    pub open spec fn takes(&self, frame_part: &FramePart, max_iter: u16, ramp: Seq<Color>) -> bool {
        &&& row_offset(frame_part.range().start() as int, self.get_size().0 as int) + 4
            * frame_part.vector()@.len() <= self.pixels()@.len()
        &&& ramp_covers(frame_part.vector()@, max_iter, ramp)
    }

    /// Whether a tile can be painted.
    pub fn can_write_part(&self, frame_part: &FramePart, max_iter: u16, ramp: &Vec<Color>) -> (ret:
        bool)
        ensures
            ret == self.takes(frame_part, max_iter, ramp@),
    {
        let counts: &Vec<u16> = frame_part.vector();
        let first_row: usize = frame_part.range().start();
        assert(0 <= first_row * self.width <= 0xffff_ffff_ffff_ffff * 0xffff_ffff)
            by (nonlinear_arith)
            requires
                0 <= first_row <= 0xffff_ffff_ffff_ffff,
                0 <= self.width <= 0xffff_ffff,
        ;
        let offset: u128 = (first_row as u128) * (self.width as u128) * 4;
        let wanted: u128 = offset + 4 * (counts.len() as u128);
        if wanted > self.pixels.len() as u128 {
            return false;
        }
        let mut i: usize = 0;
        while i < counts.len()
            invariant
                0 <= i <= counts@.len(),
                counts == frame_part.vector(),
                row_offset(frame_part.range().start() as int, self.get_size().0 as int) + 4
                    * counts@.len() <= self.pixels()@.len(),
                forall|k: int|
                    0 <= k < i && #[trigger] counts@[k] != max_iter ==> counts@[k] < ramp@.len(),
            decreases counts@.len() - i,
        {
            if counts[i] != max_iter && counts[i] as usize >= ramp.len() {
                assert(!ramp_covers(counts@, max_iter, ramp@)) by {
                    assert(counts@[i as int] != max_iter);
                }
                return false;
            }
            i = i + 1;
        }
        true
    }

    /// Paints a tile: the colour of each of its counts goes to the pixel that
    /// the tile's first row and the count's place in the tile give it. Bytes
    /// outside the tile, and the fourth byte of every pixel, stay as they
    /// were.
    pub fn write_part(&mut self, frame_part: &FramePart, max_iter: u16, ramp: &Vec<Color>)
        requires
            old(self).takes(frame_part, max_iter, ramp@),
        ensures
            final(self).get_size() == old(self).get_size(),
            final(self).pixels()@ == painted(
                old(self).pixels()@,
                row_offset(frame_part.range().start() as int, old(self).get_size().0 as int),
                colors_of(frame_part.vector()@, max_iter, ramp@),
            ),
    {
        let width: usize = self.width as usize;
        let counts: &Vec<u16> = frame_part.vector();
        let ghost before = self.pixels@;
        let ghost colors = colors_of(counts@, max_iter, ramp@);
        let first_row: usize = frame_part.range().start();
        let size: usize = self.pixels.len();
        assert(0 <= first_row * width) by (nonlinear_arith)
            requires
                0 <= first_row,
                0 <= width,
        ;
        assert(row_offset(first_row as int, width as int) == first_row * width * 4);
        let absolute: usize = first_row * width * 4;
        let mut i: usize = 0;
        while i < counts.len()
            invariant
                0 <= i <= counts@.len(),
                absolute + 4 * counts@.len() <= size,
                size == before.len(),
                self.pixels@.len() == before.len(),
                self.width == old(self).width,
                self.height == old(self).height,
                colors == colors_of(counts@, max_iter, ramp@),
                ramp_covers(counts@, max_iter, ramp@),
                self.pixels@ =~= painted(before, absolute as int, colors.take(i as int)),
            decreases counts@.len() - i,
        {
            let color: Color = determine_color(counts[i], max_iter, ramp);
            let base: usize = absolute + i * 4;
            let ghost at_entry = self.pixels@;
            self.pixels.set(base + 2, color.r);
            self.pixels.set(base + 1, color.g);
            self.pixels.set(base, color.b);
            proof {
                let shorter = colors.take(i as int);
                let longer = colors.take(i as int + 1);
                assert(longer[i as int] == color);
                assert forall|k: int| 0 <= k < before.len() implies #[trigger] self.pixels@[k]
                    == painted(before, absolute as int, longer)[k] by {
                    if absolute <= k < absolute + 4 * i {
                        assert(0 <= (k - absolute) / 4 < i);
                        assert(longer[(k - absolute) / 4] == shorter[(k - absolute) / 4]);
                        assert(at_entry[k] == painted(before, absolute as int, shorter)[k]);
                    } else if base <= k < base + 4 {
                        assert((k - absolute) / 4 == i);
                        assert(at_entry[k] == painted(before, absolute as int, shorter)[k]);
                    } else {
                        assert(at_entry[k] == painted(before, absolute as int, shorter)[k]);
                    }
                }
            }
            i = i + 1;
        }
        assert(colors.take(counts@.len() as int) =~= colors);
    }
}

} // verus!
