//! The image as a PNG or JPEG file: the pixels are gathered in a buffer of
//! the `image` crate, which the caller saves when the image is complete.

use crate::buckets::Bucket;
use crate::error::Error;
use crate::settings::OutputSettings;
use vstd::prelude::*;

verus! {

/// A buffer of the `image` crate with red, green and blue of eight bits
/// for each pixel, `image::ImageBuffer<image::Rgb<u8>, Vec<u8>>`.
#[verifier::external_body]
pub struct RgbBuffer {
    inner: image::ImageBuffer<image::Rgb<u8>, Vec<u8>>,
}

/// Width and height of a buffer, in pixels.
pub uninterp spec fn buffer_size(buffer: RgbBuffer) -> (u32, u32);

/// What a buffer holds: for the pixel in column `x` and row `y`, counted
/// from the top left, its red, green and blue under the key `(x, y)`.
pub uninterp spec fn buffer_pixels(buffer: RgbBuffer) -> Map<(int, int), (u8, u8, u8)>;

/// Whether `(x, y)` is a pixel of a picture of the size `size`.
pub open spec fn within(size: (u32, u32), x: int, y: int) -> bool {
    0 <= x < size.0 && 0 <= y < size.1
}

/// A buffer of `width` by `height` pixels, by `image::ImageBuffer::new`.
///
/// Believed of that function, not proved: the buffer has the size asked
/// for and every pixel of it is black. It panics where three bytes for
/// each pixel are more than one allocation can hold, which `requires`
/// excludes.
#[verifier::external_body]
fn new_buffer(width: u32, height: u32) -> (buffer: RgbBuffer)
    requires
        3 * width * height <= isize::MAX,
    ensures
        buffer_size(buffer) == (width, height),
        forall|x: int, y: int|
            within((width, height), x, y) ==> #[trigger] buffer_pixels(buffer)[(x, y)] == (
                0u8,
                0u8,
                0u8,
            ),
{
    RgbBuffer { inner: image::ImageBuffer::new(width, height) }
}

/// Sets the pixel `(x, y)` of `buffer`, by `image::ImageBuffer::put_pixel`.
///
/// Believed of that function, not proved: the pixel takes the colour given,
/// and the other pixels and the size stay as they are. It panics outside
/// the buffer, which `requires` excludes.
#[verifier::external_body]
fn put(buffer: &mut RgbBuffer, x: u32, y: u32, r: u8, g: u8, b: u8)
    requires
        within(buffer_size(*old(buffer)), x as int, y as int),
    ensures
        buffer_size(*final(buffer)) == buffer_size(*old(buffer)),
        forall|px: int, py: int|
            within(buffer_size(*old(buffer)), px, py) ==> #[trigger] buffer_pixels(*final(buffer))[(
                px,
                py,
            )] == if px == x && py == y {
                (r, g, b)
            } else {
                buffer_pixels(*old(buffer))[(px, py)]
            },
{
    buffer.inner.put_pixel(x, y, image::Rgb([r, g, b]));
}

/// The bytes of `buffer`, by `image::ImageBuffer::as_raw`.
///
/// Believed of that function, not proved: the bytes are the red, green and
/// blue of each pixel, row by row from the top.
#[verifier::external_body]
fn raw(buffer: &RgbBuffer) -> (bytes: &Vec<u8>)
    ensures
        bytes@.len() == 3 * (buffer_size(*buffer).0 * buffer_size(*buffer).1),
        forall|x: int, y: int|
            within(buffer_size(*buffer), x, y) ==> {
                let at = 3 * (y * buffer_size(*buffer).0 + x);
                #[trigger] buffer_pixels(*buffer)[(x, y)] == (
                    bytes@[at],
                    bytes@[at + 1],
                    bytes@[at + 2],
                )
            },
{
    buffer.inner.as_raw()
}

/// An image in the making that is saved by the `image` crate.
pub struct ImageOutput {
    buf: RgbBuffer,
    path: String,
}

impl ImageOutput {
    /// Width and height of the image, in pixels.
    pub closed spec fn size(self) -> (u32, u32) {
        buffer_size(self.buf)
    }

    /// The colours gathered so far: red, green and blue of the pixel
    /// `(x, y)` under the key `(x, y)`.
    pub closed spec fn pixels(self) -> Map<(int, int), (u8, u8, u8)> {
        buffer_pixels(self.buf)
    }

    /// Name of the file that the image is meant for.
    pub closed spec fn file_name(self) -> Seq<char> {
        self.path@
    }

    /// A black image of the size that `settings` gives, for the file that
    /// `settings` names.
    pub fn new(settings: &OutputSettings) -> (result: Result<ImageOutput, Error>)
        requires
            3 * settings.width * settings.height <= isize::MAX,
        ensures
            result matches Ok(out) && {
                &&& out.size() == (settings.width, settings.height)
                &&& out.file_name() == settings.filename_template@
                &&& forall|x: int, y: int|
                    within(out.size(), x, y) ==> #[trigger] out.pixels()[(x, y)] == (0u8, 0u8, 0u8)
            },
    {
        Ok(
            ImageOutput {
                buf: new_buffer(settings.width, settings.height),
                path: settings.filename_template.clone(),
            },
        )
    }

    /// Sets the pixel `(x, y)`, counted from the top left, to the colour
    /// `(r, g, b)`.
    pub fn put_pixel(&mut self, x: u32, y: u32, r: u8, g: u8, b: u8) -> (result: Result<(), Error>)
        requires
            within(old(self).size(), x as int, y as int),
        ensures
            result is Ok,
            final(self).size() == old(self).size(),
            final(self).file_name() == old(self).file_name(),
            forall|px: int, py: int|
                within(old(self).size(), px, py) ==> #[trigger] final(self).pixels()[(px, py)]
                    == if px == x && py == y {
                    (r, g, b)
                } else {
                    old(self).pixels()[(px, py)]
                },
    {
        put(&mut self.buf, x, y, r, g, b);
        Ok(())
    }

    /// Copies the rendered colours `pixels` of a bucket into the image: row
    /// `j` of `pixels` goes to row `bucket.y + j`, from column `bucket.x`
    /// rightward.
    pub fn put_bucket(&mut self, bucket: &Bucket, pixels: &Vec<Vec<(u8, u8, u8)>>) -> (result:
        Result<(), Error>)
        requires
            bucket.fits(pixels@, old(self).size().0 as int, old(self).size().1 as int),
        ensures
            result is Ok,
            final(self).size() == old(self).size(),
            final(self).file_name() == old(self).file_name(),
            forall|px: int, py: int|
                within(old(self).size(), px, py) ==> #[trigger] final(self).pixels()[(px, py)]
                    == if bucket.lays(pixels@, pixels@.len() as int, px, py) {
                    pixels@[py - bucket.y]@[px - bucket.x]
                } else {
                    old(self).pixels()[(px, py)]
                },
    {
        let mut j: usize = 0;
        while j < pixels.len()
            invariant
                j <= pixels.len(),
                self.size() == old(self).size(),
                self.file_name() == old(self).file_name(),
                bucket.fits(pixels@, self.size().0 as int, self.size().1 as int),
                forall|px: int, py: int|
                    within(old(self).size(), px, py) ==> #[trigger] self.pixels()[(px, py)]
                        == if bucket.lays(pixels@, j as int, px, py) {
                        pixels@[py - bucket.y]@[px - bucket.x]
                    } else {
                        old(self).pixels()[(px, py)]
                    },
            decreases pixels.len() - j,
        {
            let row = &pixels[j];
            let ghost above = *self;
            let mut i: usize = 0;
            while i < row.len()
                invariant
                    i <= row.len(),
                    j < pixels.len(),
                    row == pixels@[j as int],
                    self.size() == old(self).size(),
                    self.size() == above.size(),
                    self.file_name() == old(self).file_name(),
                    bucket.fits(pixels@, self.size().0 as int, self.size().1 as int),
                    forall|px: int, py: int|
                        within(above.size(), px, py) ==> #[trigger] self.pixels()[(px, py)]
                            == if py == bucket.y + j && bucket.x <= px < bucket.x + i {
                            row@[px - bucket.x]
                        } else {
                            above.pixels()[(px, py)]
                        },
                decreases row.len() - i,
            {
                let (r, g, b) = row[i];
                let _ = self.put_pixel(bucket.x + i as u32, bucket.y + j as u32, r, g, b);
                i += 1;
            }
            j += 1;
        }
        Ok(())
    }

    /// Name of the file that the image is meant for.
    pub fn path(&self) -> (path: &String)
        ensures
            path@ == self.file_name(),
    {
        &self.path
    }

    /// Width of the image in pixels.
    pub fn width(&self) -> (width: u32)
        ensures
            width == self.size().0,
    {
        size_of(&self.buf).0
    }

    /// Height of the image in pixels.
    pub fn height(&self) -> (height: u32)
        ensures
            height == self.size().1,
    {
        size_of(&self.buf).1
    }

    /// The image as bytes: red, green and blue of each pixel, row by row
    /// from the top.
    pub fn bytes(&self) -> (bytes: &Vec<u8>)
        ensures
            bytes@.len() == 3 * (self.size().0 * self.size().1),
            forall|x: int, y: int|
                within(self.size(), x, y) ==> {
                    let at = 3 * (y * self.size().0 + x);
                    #[trigger] self.pixels()[(x, y)] == (bytes@[at], bytes@[at + 1], bytes@[at + 2])
                },
    {
        raw(&self.buf)
    }
}

/// Width and height of `buffer`, by `image::ImageBuffer::dimensions`.
#[verifier::external_body]
fn size_of(buffer: &RgbBuffer) -> (size: (u32, u32))
    ensures
        size == buffer_size(*buffer),
{
    buffer.inner.dimensions()
}

} // verus!
