//! The picture shown while the image is rendered: one packed colour for
//! each pixel, row by row from the top.

use crate::buckets::Bucket;
use crate::rows::{lemma_place_in_buffer, lemma_place_is_unique, place};
use vstd::prelude::*;

verus! {

/// The colour with the channels `r`, `g` and `b`, packed as the window
/// wants it: red in bits 16 to 23, green in bits 8 to 15, blue in bits 0
/// to 7. A channel above 255 runs over into the bits above it.
pub open spec fn packed(r: u32, g: u32, b: u32) -> u32 {
    r << 16 | g << 8 | b
}

/// Packs the channels `r`, `g` and `b` into one colour. Channels that fit
/// a byte each can be read back from it.
pub fn pack_rgb(r: u32, g: u32, b: u32) -> (colour: u32)
    ensures
        colour == packed(r, g, b),
        r <= 255 && g <= 255 && b <= 255 ==> {
            &&& (colour >> 16) & 0xff == r
            &&& (colour >> 8) & 0xff == g
            &&& colour & 0xff == b
            &&& colour <= WHITE
        },
{
    proof {
        if r <= 255 && g <= 255 && b <= 255 {
            lemma_packed_channels(r, g, b);
        }
    }
    r << 16 | g << 8 | b
}

/// White, the colour of a bucket's outline.
pub const WHITE: u32 = 0x00ff_ffff;

/// Channels that fit a byte each are kept apart by `packed`: each can be
/// read back from its bits, and the bits above them stay clear.
pub proof fn lemma_packed_channels(r: u32, g: u32, b: u32)
    requires
        r <= 255,
        g <= 255,
        b <= 255,
    ensures
        (packed(r, g, b) >> 16) & 0xff == r,
        (packed(r, g, b) >> 8) & 0xff == g,
        packed(r, g, b) & 0xff == b,
        packed(r, g, b) <= WHITE,
        packed(255, 255, 255) == WHITE,
{
    assert(((r << 16 | g << 8 | b) >> 16) & 0xff == r && ((r << 16 | g << 8 | b) >> 8) & 0xff == g
        && (r << 16 | g << 8 | b) & 0xff == b && (r << 16 | g << 8 | b) <= 0x00ff_ffffu32)
        by (bit_vector)
        requires
            r <= 255,
            g <= 255,
            b <= 255,
    ;
    assert((255u32 << 16 | 255u32 << 8 | 255u32) == 0x00ff_ffffu32) by (bit_vector);
}

/// Whether the pixel `(px, py)` lies on the outline of `bucket`: in its
/// first or last row, or in its first or last column.
pub open spec fn on_outline(bucket: Bucket, px: int, py: int) -> bool {
    &&& bucket.covers(px, py)
    &&& (px == bucket.x || px == bucket.x + bucket.width - 1 || py == bucket.y || py == bucket.y
        + bucket.height - 1)
}

/// A picture of packed colours.
#[derive(Debug)]
pub struct FrameBuffer {
    width: u32,
    height: u32,
    buffer: Vec<u32>,
}

impl FrameBuffer {
    /// Width of the picture in pixels.
    pub closed spec fn spec_width(&self) -> u32 {
        self.width
    }

    /// Height of the picture in pixels.
    pub closed spec fn spec_height(&self) -> u32 {
        self.height
    }

    /// Width of the picture in pixels.
    #[verifier::when_used_as_spec(spec_width)]
    pub fn width(&self) -> (width: u32)
        ensures
            width == self.width(),
    {
        self.width
    }

    /// Height of the picture in pixels.
    #[verifier::when_used_as_spec(spec_height)]
    pub fn height(&self) -> (height: u32)
        ensures
            height == self.height(),
    {
        self.height
    }

    /// The colours, row by row from the top.
    pub closed spec fn pixels(self) -> Seq<u32> {
        self.buffer@
    }

    /// The buffer holds one colour for each pixel, and their number fits
    /// 32 bits.
    pub closed spec fn wf(self) -> bool {
        &&& self.buffer@.len() == self.width * self.height
        &&& self.width * self.height <= u32::MAX
    }

    /// The colour of the pixel `(x, y)`.
    pub open spec fn at(self, x: int, y: int) -> u32 {
        self.pixels()[place(self.width() as int, x, y)]
    }

    /// Whether `(x, y)` is a pixel of the picture.
    pub open spec fn holds(self, x: int, y: int) -> bool {
        0 <= x < self.width() && 0 <= y < self.height()
    }

    /// Whether `other` has the size of this picture.
    pub open spec fn same_size(self, other: FrameBuffer) -> bool {
        self.width() == other.width() && self.height() == other.height()
    }

    /// A black picture of `width` by `height` pixels.
    pub fn new(width: u32, height: u32) -> (frame: FrameBuffer)
        requires
            width * height <= u32::MAX,
        ensures
            frame.wf(),
            frame.width() == width,
            frame.height() == height,
            frame.pixels() == Seq::new((width * height) as nat, |i: int| 0u32),
    {
        let buffer: Vec<u32> = vec![0u32; (width * height) as usize];
        assert(buffer@ =~= Seq::new((width * height) as nat, |i: int| 0u32));
        FrameBuffer { width, height, buffer }
    }

    /// The colours, row by row from the top, as the window takes them.
    pub fn buffer(&self) -> (buffer: &Vec<u32>)
        ensures
            buffer@ == self.pixels(),
    {
        &self.buffer
    }

    /// Gives the pixel `(x, y)` the colour `colour`.
    pub fn set_pixel(&mut self, x: u32, y: u32, colour: u32)
        requires
            old(self).wf(),
            old(self).holds(x as int, y as int),
        ensures
            final(self).wf(),
            final(self).same_size(*old(self)),
            final(self).pixels() == old(self).pixels().update(
                place(old(self).width() as int, x as int, y as int),
                colour,
            ),
            forall|px: int, py: int|
                old(self).holds(px, py) ==> #[trigger] final(self).at(px, py) == if px == x && py
                    == y {
                    colour
                } else {
                    old(self).at(px, py)
                },
    {
        proof {
            lemma_place_in_buffer(self.width as int, self.height as int, x as int, y as int);
        }
        let i = (y * self.width + x) as usize;
        self.buffer.set(i, colour);
        proof {
            assert forall|px: int, py: int| old(self).holds(px, py) implies #[trigger] self.at(
                px,
                py,
            ) == if px == x && py == y {
                colour
            } else {
                old(self).at(px, py)
            } by {
                lemma_place_in_buffer(self.width as int, self.height as int, px, py);
                if place(self.width as int, px, py) == place(self.width as int, x as int, y as int) {
                    lemma_place_is_unique(self.width as int, px, py, x as int, y as int);
                }
            }
        }
    }

    /// Gives the `len` pixels from `(x, y)` rightward the colour `colour`.
    pub fn horizontal_line(&mut self, x: u32, y: u32, len: u32, colour: u32)
        requires
            old(self).wf(),
            y < old(self).height(),
            x + len <= old(self).width(),
        ensures
            final(self).wf(),
            final(self).same_size(*old(self)),
            forall|px: int, py: int|
                old(self).holds(px, py) ==> #[trigger] final(self).at(px, py) == if py == y && x
                    <= px < x + len {
                    colour
                } else {
                    old(self).at(px, py)
                },
    {
        let mut i: u32 = 0;
        while i < len
            invariant
                i <= len,
                self.wf(),
                self.same_size(*old(self)),
                y < self.height(),
                x + len <= self.width(),
                forall|px: int, py: int|
                    old(self).holds(px, py) ==> #[trigger] self.at(px, py) == if py == y && x <= px
                        < x + i {
                        colour
                    } else {
                        old(self).at(px, py)
                    },
            decreases len - i,
        {
            self.set_pixel(x + i, y, colour);
            i += 1;
        }
    }

    /// Gives the `len` pixels from `(x, y)` downward the colour `colour`.
    pub fn vertical_line(&mut self, x: u32, y: u32, len: u32, colour: u32)
        requires
            old(self).wf(),
            x < old(self).width(),
            y + len <= old(self).height(),
        ensures
            final(self).wf(),
            final(self).same_size(*old(self)),
            forall|px: int, py: int|
                old(self).holds(px, py) ==> #[trigger] final(self).at(px, py) == if px == x && y
                    <= py < y + len {
                    colour
                } else {
                    old(self).at(px, py)
                },
    {
        let mut i: u32 = 0;
        while i < len
            invariant
                i <= len,
                self.wf(),
                self.same_size(*old(self)),
                x < self.width(),
                y + len <= self.height(),
                forall|px: int, py: int|
                    old(self).holds(px, py) ==> #[trigger] self.at(px, py) == if px == x && y <= py
                        < y + i {
                        colour
                    } else {
                        old(self).at(px, py)
                    },
            decreases len - i,
        {
            self.set_pixel(x, y + i, colour);
            i += 1;
        }
    }

    /// Draws the outline of `bucket` in white, to show that it is being
    /// rendered.
    pub fn outline_bucket(&mut self, bucket: &Bucket)
        requires
            old(self).wf(),
            bucket.inside(old(self).width() as int, old(self).height() as int),
        ensures
            final(self).wf(),
            final(self).same_size(*old(self)),
            forall|px: int, py: int|
                old(self).holds(px, py) ==> #[trigger] final(self).at(px, py) == if on_outline(
                    *bucket,
                    px,
                    py,
                ) {
                    WHITE
                } else {
                    old(self).at(px, py)
                },
    {
        self.horizontal_line(bucket.x, bucket.y, bucket.width, WHITE);
        self.horizontal_line(bucket.x, bucket.y + bucket.height - 1, bucket.width, WHITE);
        self.vertical_line(bucket.x, bucket.y, bucket.height, WHITE);
        self.vertical_line(bucket.x + bucket.width - 1, bucket.y, bucket.height, WHITE);
    }

    /// Copies the rendered colours `pixels` of a bucket into the picture:
    /// row `j` of `pixels` goes to row `bucket.y + j`, from column
    /// `bucket.x` rightward.
    pub fn put_bucket(&mut self, bucket: &Bucket, pixels: &Vec<Vec<u32>>)
        requires
            old(self).wf(),
            bucket.fits(pixels@, old(self).width() as int, old(self).height() as int),
        ensures
            final(self).wf(),
            final(self).same_size(*old(self)),
            forall|px: int, py: int|
                old(self).holds(px, py) ==> #[trigger] final(self).at(px, py) == if bucket.lays(
                    pixels@,
                    pixels@.len() as int,
                    px,
                    py,
                ) {
                    pixels@[py - bucket.y]@[px - bucket.x]
                } else {
                    old(self).at(px, py)
                },
    {
        let mut j: usize = 0;
        while j < pixels.len()
            invariant
                j <= pixels.len(),
                self.wf(),
                self.same_size(*old(self)),
                bucket.fits(pixels@, self.width() as int, self.height() as int),
                forall|px: int, py: int|
                    old(self).holds(px, py) ==> #[trigger] self.at(px, py) == if bucket.lays(
                        pixels@,
                        j as int,
                        px,
                        py,
                    ) {
                        pixels@[py - bucket.y]@[px - bucket.x]
                    } else {
                        old(self).at(px, py)
                    },
            decreases pixels.len() - j,
        {
            let row = &pixels[j];
            let ghost above = *self;
            let mut i: usize = 0;
            while i < row.len()
                invariant
                    i <= row.len(),
                    j < pixels.len(),
                    row == pixels@[j as int],
                    self.wf(),
                    self.same_size(*old(self)),
                    self.same_size(above),
                    bucket.fits(pixels@, self.width() as int, self.height() as int),
                    forall|px: int, py: int|
                        above.holds(px, py) ==> #[trigger] self.at(px, py) == if py == bucket.y + j
                            && bucket.x <= px < bucket.x + i {
                            row@[px - bucket.x]
                        } else {
                            above.at(px, py)
                        },
                decreases row.len() - i,
            {
                self.set_pixel(bucket.x + i as u32, bucket.y + j as u32, row[i]);
                i += 1;
            }
            j += 1;
        }
    }
}

} // verus!
