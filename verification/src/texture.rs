//! Colours looked up in a picture that was read from a file.

use image::GenericImageView;
use vstd::prelude::*;

verus! {

/// `image::DynamicImage`, a picture in one of several pixel formats.
/// Nothing of its inside is seen here.
#[verifier::external_type_specification]
#[verifier::external_body]
pub struct ExDynamicImage(image::DynamicImage);

/// Width and height of a picture, in pixels.
pub uninterp spec fn image_size(img: image::DynamicImage) -> (u32, u32);

/// What a picture holds: for the pixel in column `x` and row `y`, counted
/// from the top left, its red, green, blue and alpha of eight bits each
/// under the key `(x, y)`.
pub uninterp spec fn image_pixels(img: image::DynamicImage) -> Map<(int, int), (u8, u8, u8, u8)>;

/// Width and height of `img`, by `image::GenericImageView::dimensions`.
#[verifier::external_body]
fn dimensions(img: &image::DynamicImage) -> (size: (u32, u32))
    ensures
        size == image_size(*img),
{
    img.dimensions()
}

/// The pixel `(x, y)` of `img`, by `image::GenericImageView::get_pixel`,
/// which gives red, green, blue and alpha whatever the picture stores.
///
/// Believed of that function, not proved: it reads the picture without
/// changing it, so it gives the same colour each time. It panics outside
/// the picture, which `requires` excludes.
#[verifier::external_body]
fn pixel_at(img: &image::DynamicImage, x: u32, y: u32) -> (rgba: (u8, u8, u8, u8))
    requires
        x < image_size(*img).0,
        y < image_size(*img).1,
    ensures
        rgba == image_pixels(*img)[(x as int, y as int)],
{
    let pixel = img.get_pixel(x, y);
    (pixel.0[0], pixel.0[1], pixel.0[2], pixel.0[3])
}

/// `v` where it lies between `low` and `high`, else the nearer of the two.
pub open spec fn clamped(v: int, low: int, high: int) -> int {
    if v < low {
        low
    } else if v > high {
        high
    } else {
        v
    }
}

/// The index nearest to `v` among the `size` indexes from 0.
pub fn clamp_index(v: i32, size: u32) -> (index: u32)
    requires
        0 < size <= i32::MAX,
    ensures
        index == clamped(v as int, 0, size - 1),
{
    let last = size as i32 - 1;
    let mut v = v;
    if v < 0 {
        v = 0;
    }
    if v > last {
        v = last;
    }
    v as u32
}

/// Red, green and blue of a colour with alpha.
pub fn without_alpha(rgba: (u8, u8, u8, u8)) -> (rgb: (u8, u8, u8))
    ensures
        rgb == (rgba.0, rgba.1, rgba.2),
{
    (rgba.0, rgba.1, rgba.2)
}

/// A texture that takes its colours from a picture.
#[derive(Debug)]
pub struct ImageTexture {
    img: image::DynamicImage,
    nx: u32,
    ny: u32,
}

impl ImageTexture {
    /// The picture behind the texture.
    pub closed spec fn image(self) -> image::DynamicImage {
        self.img
    }

    /// Width of the picture in pixels.
    pub closed spec fn width(self) -> int {
        self.nx as int
    }

    /// Height of the picture in pixels.
    pub closed spec fn height(self) -> int {
        self.ny as int
    }

    /// The texture knows the size of its picture.
    pub closed spec fn wf(self) -> bool {
        (self.nx, self.ny) == image_size(self.img)
    }

    /// The colour of the texel in column `i` and row `j`; a texel outside
    /// the picture takes the colour of the nearest one inside.
    pub open spec fn colour(self, i: int, j: int) -> (u8, u8, u8) {
        let rgba = image_pixels(self.image())[(
            clamped(i, 0, self.width() - 1),
            clamped(j, 0, self.height() - 1),
        )];
        (rgba.0, rgba.1, rgba.2)
    }

    /// A texture that takes its colours from `img`.
    pub fn new(img: image::DynamicImage) -> (texture: ImageTexture)
        ensures
            texture.wf(),
            texture.image() == img,
            (texture.width(), texture.height()) == (
                image_size(img).0 as int,
                image_size(img).1 as int,
            ),
    {
        let (x, y) = dimensions(&img);
        ImageTexture { img, nx: x, ny: y }
    }

    /// Width of the picture in pixels.
    pub fn nx(&self) -> (nx: u32)
        ensures
            nx == self.width(),
    {
        self.nx
    }

    /// Height of the picture in pixels.
    pub fn ny(&self) -> (ny: u32)
        ensures
            ny == self.height(),
    {
        self.ny
    }

    /// Whether the picture holds a pixel and its width and height can be
    /// told in the signed numbers by which texels are asked for.
    pub open spec fn usable(self) -> bool {
        0 < self.width() <= i32::MAX && 0 < self.height() <= i32::MAX
    }

    /// Red, green and blue of the texel in column `i` and row `j`, as
    /// `texel` gives them; `None` for a picture that is not `usable`.
    pub fn lookup(&self, i: i32, j: i32) -> (rgb: Option<(u8, u8, u8)>)
        requires
            self.wf(),
        ensures
            rgb == if self.usable() {
                Some(self.colour(i as int, j as int))
            } else {
                None
            },
    {
        if self.nx == 0 || self.ny == 0 || self.nx > i32::MAX as u32 || self.ny > i32::MAX as u32 {
            None
        } else {
            Some(self.texel(i, j))
        }
    }

    /// Red, green and blue of the texel in column `i` and row `j`, counted
    /// from the top left. Columns and rows outside the picture are moved
    /// to its nearest edge.
    pub fn texel(&self, i: i32, j: i32) -> (rgb: (u8, u8, u8))
        requires
            self.wf(),
            self.usable(),
        ensures
            rgb == self.colour(i as int, j as int),
    {
        let x = clamp_index(i, self.nx);
        let y = clamp_index(j, self.ny);
        without_alpha(pixel_at(&self.img, x, y))
    }
}

} // verus!
