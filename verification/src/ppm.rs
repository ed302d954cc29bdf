//! The image as a plain-text PPM file.
//!
//! The pixels are gathered in a buffer of three bytes each, row by row, and
//! written out in one piece when the image is complete: the mark of a
//! plain-text pixmap, the width and height, the largest channel value 255,
//! and then one line for each pixel with its red, green and blue in
//! decimal.

use crate::buckets::Bucket;
use crate::error::Error;
use crate::settings::OutputSettings;
use crate::rows::{lemma_place_in_buffer, lemma_place_is_unique, place};
use vstd::prelude::*;

verus! {

/// The character `0`.
pub const DIGIT_ZERO: u8 = 48;

/// A blank.
pub const SPACE: u8 = 32;

/// The end of a line.
pub const NEWLINE: u8 = 10;

/// The number `n` in decimal, without leading zeros.
pub open spec fn decimal(n: nat) -> Seq<u8>
    decreases n,
{
    if n < 10 {
        seq![(DIGIT_ZERO + n) as u8]
    } else {
        decimal(n / 10).push((DIGIT_ZERO + n % 10) as u8)
    }
}

/// The number that the decimal digits `digits` stand for.
pub open spec fn decimal_value(digits: Seq<u8>) -> nat
    decreases digits.len(),
{
    if digits.len() == 0 {
        0
    } else {
        (decimal_value(digits.drop_last()) * 10 + (digits.last() - DIGIT_ZERO)) as nat
    }
}

/// `decimal` writes digits only, begins with `0` for zero alone, and
/// writes the number that was given: reading the digits back gives it
/// again.
pub proof fn lemma_decimal_reads_back(n: nat)
    ensures
        decimal(n).len() >= 1,
        forall|i: int|
            0 <= i < decimal(n).len() ==> DIGIT_ZERO <= #[trigger] decimal(n)[i] <= DIGIT_ZERO + 9,
        decimal(n)[0] == DIGIT_ZERO <==> n == 0,
        decimal_value(decimal(n)) == n,
    decreases n,
{
    if n < 10 {
        assert(decimal(n).drop_last() =~= Seq::<u8>::empty());
        assert(decimal_value(decimal(n).drop_last()) == 0);
    } else {
        lemma_decimal_reads_back(n / 10);
        assert(decimal(n).drop_last() =~= decimal(n / 10));
    }
}

/// The first lines of the file: the mark of a plain-text pixmap, the size,
/// and 255.
pub open spec fn header(width: nat, height: nat) -> Seq<u8> {
    seq![80u8, 51u8, NEWLINE] + decimal(width) + seq![SPACE] + decimal(height) + seq![
        NEWLINE,
        50u8,
        53u8,
        53u8,
        NEWLINE,
    ]
}

/// The line of one pixel.
pub open spec fn pixel_line(r: u8, g: u8, b: u8) -> Seq<u8> {
    decimal(r as nat) + seq![SPACE] + decimal(g as nat) + seq![SPACE] + decimal(b as nat) + seq![
        NEWLINE,
    ]
}

/// The lines of the first `count` pixels of `samples`, which holds three
/// bytes for each pixel.
pub open spec fn pixel_lines(samples: Seq<u8>, count: nat) -> Seq<u8>
    decreases count,
{
    if count == 0 {
        Seq::empty()
    } else {
        let at = 3 * (count - 1);
        pixel_lines(samples, (count - 1) as nat) + pixel_line(
            samples[at],
            samples[at + 1],
            samples[at + 2],
        )
    }
}

/// The whole file of an image of `width` by `height` pixels.
pub open spec fn ppm_text(width: nat, height: nat, samples: Seq<u8>) -> Seq<u8> {
    header(width, height) + pixel_lines(samples, width * height)
}

/// Appends `n` in decimal.
fn push_decimal(out: &mut Vec<u8>, n: u32)
    ensures
        final(out)@ == old(out)@ + decimal(n as nat),
    decreases n,
{
    if n >= 10 {
        push_decimal(out, n / 10);
    }
    out.push(DIGIT_ZERO + (n % 10) as u8);
    assert(out@ =~= old(out)@ + decimal(n as nat));
}

/// An image in the making that is written as a PPM file.
#[derive(Debug)]
pub struct PpmOutput {
    settings: OutputSettings,
    path: String,
    buffer: Vec<u8>,
}

impl PpmOutput {
    /// Width of the image in pixels.
    pub closed spec fn spec_width(&self) -> u32 {
        self.settings.width
    }

    /// Height of the image in pixels.
    pub closed spec fn spec_height(&self) -> u32 {
        self.settings.height
    }

    /// Width of the image in pixels.
    #[verifier::when_used_as_spec(spec_width)]
    pub fn width(&self) -> (width: u32)
        ensures
            width == self.width(),
    {
        self.settings.width
    }

    /// Height of the image in pixels.
    #[verifier::when_used_as_spec(spec_height)]
    pub fn height(&self) -> (height: u32)
        ensures
            height == self.height(),
    {
        self.settings.height
    }

    /// Name of the file that the image is meant for.
    pub closed spec fn file_name(self) -> Seq<char> {
        self.path@
    }

    /// The samples gathered so far: red, green and blue of each pixel, row
    /// by row from the top.
    pub closed spec fn samples(self) -> Seq<u8> {
        self.buffer@
    }

    /// The buffer holds three bytes for each pixel, and their number fits
    /// 32 bits.
    pub closed spec fn wf(self) -> bool {
        &&& self.buffer@.len() == 3 * (self.width() * self.height())
        &&& 3 * (self.width() * self.height()) <= u32::MAX
    }

    /// Where the first of the three samples of pixel `(x, y)` stands.
    pub open spec fn sample_index(self, x: int, y: int) -> int {
        3 * place(self.width() as int, x, y)
    }

    /// Red, green and blue of the pixel `(x, y)`.
    pub open spec fn pixel(self, x: int, y: int) -> (u8, u8, u8) {
        (
            self.samples()[self.sample_index(x, y)],
            self.samples()[self.sample_index(x, y) + 1],
            self.samples()[self.sample_index(x, y) + 2],
        )
    }

    /// Whether `(x, y)` is a pixel of the image.
    pub open spec fn holds(self, x: int, y: int) -> bool {
        0 <= x < self.width() && 0 <= y < self.height()
    }

    /// Whether `other` is an image of the same size for the same file.
    pub open spec fn same_frame(self, other: PpmOutput) -> bool {
        &&& self.width() == other.width()
        &&& self.height() == other.height()
        &&& self.file_name() == other.file_name()
    }

    /// A black image of the size that `settings` gives, for the file that
    /// `settings` names.
    pub fn new(settings: &OutputSettings) -> (result: Result<PpmOutput, Error>)
        requires
            settings.width * settings.height * 3 <= u32::MAX,
        ensures
            result matches Ok(out) && {
                &&& out.wf()
                &&& out.width() == settings.width
                &&& out.height() == settings.height
                &&& out.file_name() == settings.filename_template@
                &&& out.samples() == Seq::new(
                    (3 * (settings.width * settings.height)) as nat,
                    |i: int| 0u8,
                )
            },
    {
        assert(settings.width * settings.height <= u32::MAX) by (nonlinear_arith)
            requires
                settings.width * settings.height * 3 <= u32::MAX,
        ;
        let size = (settings.width * settings.height * 3) as usize;
        let buffer: Vec<u8> = vec![0u8; size];
        assert(buffer@ =~= Seq::new(
            (3 * (settings.width * settings.height)) as nat,
            |i: int| 0u8,
        ));
        Ok(
            PpmOutput {
                settings: OutputSettings {
                    format: settings.format,
                    filename_template: settings.filename_template.clone(),
                    width: settings.width,
                    height: settings.height,
                },
                path: settings.filename_template.clone(),
                buffer,
            },
        )
    }

    /// Name of the file that the image is meant for.
    pub fn path(&self) -> (path: &String)
        ensures
            path@ == self.file_name(),
    {
        &self.path
    }

    /// Sets the pixel `(x, y)`, counted from the top left, to the colour
    /// `(r, g, b)`.
    pub fn put_pixel(&mut self, x: u32, y: u32, r: u8, g: u8, b: u8) -> (result: Result<(), Error>)
        requires
            old(self).wf(),
            x < old(self).width(),
            y < old(self).height(),
        ensures
            result is Ok,
            final(self).wf(),
            final(self).same_frame(*old(self)),
            final(self).samples() == old(self).samples().update(
                old(self).sample_index(x as int, y as int),
                r,
            ).update(old(self).sample_index(x as int, y as int) + 1, g).update(
                old(self).sample_index(x as int, y as int) + 2,
                b,
            ),
            forall|px: int, py: int|
                old(self).holds(px, py) ==> #[trigger] final(self).pixel(px, py) == if px == x
                    && py == y {
                    (r, g, b)
                } else {
                    old(self).pixel(px, py)
                },
    {
        proof {
            lemma_place_in_buffer(
                self.settings.width as int,
                self.settings.height as int,
                x as int,
                y as int,
            );
        }
        let i = (3 * (self.settings.width * y + x)) as usize;
        self.buffer.set(i, r);
        self.buffer.set(i + 1, g);
        self.buffer.set(i + 2, b);
        proof {
            let w = self.settings.width as int;
            assert forall|px: int, py: int| old(self).holds(px, py) implies #[trigger] self.pixel(
                px,
                py,
            ) == if px == x && py == y {
                (r, g, b)
            } else {
                old(self).pixel(px, py)
            } by {
                lemma_place_in_buffer(w, self.settings.height as int, px, py);
                if place(w, px, py) == place(w, x as int, y as int) {
                    lemma_place_is_unique(w, px, py, x as int, y as int);
                }
            }
        }
        Ok(())
    }

    /// Copies the rendered colours `pixels` of a bucket into the image: row
    /// `j` of `pixels` goes to row `bucket.y + j`, from column `bucket.x`
    /// rightward.
    pub fn put_bucket(&mut self, bucket: &Bucket, pixels: &Vec<Vec<(u8, u8, u8)>>) -> (result:
        Result<(), Error>)
        requires
            old(self).wf(),
            bucket.fits(pixels@, old(self).width() as int, old(self).height() as int),
        ensures
            result is Ok,
            final(self).wf(),
            final(self).same_frame(*old(self)),
            forall|px: int, py: int|
                old(self).holds(px, py) ==> #[trigger] final(self).pixel(px, py) == if bucket.lays(
                    pixels@,
                    pixels@.len() as int,
                    px,
                    py,
                ) {
                    pixels@[py - bucket.y]@[px - bucket.x]
                } else {
                    old(self).pixel(px, py)
                },
    {
        let mut j: usize = 0;
        while j < pixels.len()
            invariant
                j <= pixels.len(),
                self.wf(),
                self.same_frame(*old(self)),
                bucket.fits(pixels@, self.width() as int, self.height() as int),
                forall|px: int, py: int|
                    old(self).holds(px, py) ==> #[trigger] self.pixel(px, py) == if bucket.lays(
                        pixels@,
                        j as int,
                        px,
                        py,
                    ) {
                        pixels@[py - bucket.y]@[px - bucket.x]
                    } else {
                        old(self).pixel(px, py)
                    },
            decreases pixels.len() - j,
        {
            let row = &pixels[j];
            let ghost above = *self;
            let mut i: usize = 0;
            while i < row.len()
                invariant
                    i <= row.len(),
                    j < pixels.len(),
                    row == pixels@[j as int],
                    self.wf(),
                    self.same_frame(*old(self)),
                    self.same_frame(above),
                    bucket.fits(pixels@, self.width() as int, self.height() as int),
                    forall|px: int, py: int|
                        above.holds(px, py) ==> #[trigger] self.pixel(px, py) == if py == bucket.y
                            + j && bucket.x <= px < bucket.x + i {
                            row@[px - bucket.x]
                        } else {
                            above.pixel(px, py)
                        },
                decreases row.len() - i,
            {
                let (r, g, b) = row[i];
                let _ = self.put_pixel(bucket.x + i as u32, bucket.y + j as u32, r, g, b);
                i += 1;
            }
            j += 1;
        }
        Ok(())
    }

    /// The image as the bytes of a PPM file.
    pub fn encode(&self) -> (text: Vec<u8>)
        requires
            self.wf(),
        ensures
            text@ == ppm_text(self.width() as nat, self.height() as nat, self.samples()),
    {
        let mut text: Vec<u8> = Vec::new();
        text.push(80u8);
        text.push(51u8);
        text.push(NEWLINE);
        push_decimal(&mut text, self.settings.width);
        text.push(SPACE);
        push_decimal(&mut text, self.settings.height);
        text.push(NEWLINE);
        text.push(50u8);
        text.push(53u8);
        text.push(53u8);
        text.push(NEWLINE);
        assert(text@ =~= header(self.width() as nat, self.height() as nat));
        let ghost head = text@;
        let count: usize = self.buffer.len() / 3;
        let mut p: usize = 0;
        assert(text@ =~= head + pixel_lines(self.buffer@, 0));
        while p < count
            invariant
                p <= count,
                3 * count <= usize::MAX,
                self.buffer@.len() == 3 * count,
                text@ == head + pixel_lines(self.buffer@, p as nat),
            decreases count - p,
        {
            let ghost before = text@;
            push_decimal(&mut text, self.buffer[3 * p] as u32);
            text.push(SPACE);
            push_decimal(&mut text, self.buffer[3 * p + 1] as u32);
            text.push(SPACE);
            push_decimal(&mut text, self.buffer[3 * p + 2] as u32);
            text.push(NEWLINE);
            p += 1;
            assert(text@ =~= before + pixel_line(
                self.buffer@[3 * (p - 1)],
                self.buffer@[3 * (p - 1) + 1],
                self.buffer@[3 * (p - 1) + 2],
            ));
            assert(text@ =~= head + pixel_lines(self.buffer@, p as nat));
        }
        text
    }
}

} // verus!
