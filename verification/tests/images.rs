use image::{DynamicImage, ImageBuffer, Luma, Rgb, Rgba};
use raytracer::buckets::Bucket;
use raytracer::image_output::ImageOutput;
use raytracer::settings::{OutputFormat, OutputSettings};
use raytracer::texture::ImageTexture;

fn picture() -> DynamicImage {
    // 3 wide, 2 high; pixel (x, y) has the colour (10 x, 20 y, x + y).
    DynamicImage::ImageRgb8(ImageBuffer::from_fn(3, 2, |x, y| {
        Rgb([10 * x as u8, 20 * y as u8, (x + y) as u8])
    }))
}

#[test]
fn texture_knows_the_size_of_its_picture() {
    let texture = ImageTexture::new(picture());
    assert_eq!((texture.nx(), texture.ny()), (3, 2));
}

#[test]
fn texel_inside_the_picture() {
    let texture = ImageTexture::new(picture());
    assert_eq!(texture.texel(0, 0), (0, 0, 0));
    assert_eq!(texture.texel(2, 1), (20, 20, 3));
    assert_eq!(texture.texel(1, 0), (10, 0, 1));
}

#[test]
fn texel_outside_is_moved_to_the_edge() {
    let texture = ImageTexture::new(picture());
    assert_eq!(texture.texel(-5, 0), (0, 0, 0));
    assert_eq!(texture.texel(3, 1), (20, 20, 3));
    assert_eq!(texture.texel(1, 2), (10, 20, 2));
    assert_eq!(texture.texel(i32::MAX, i32::MIN), (20, 0, 2));
    assert_eq!(texture.texel(i32::MIN, i32::MAX), (0, 20, 1));
}

#[test]
fn texel_drops_alpha_and_widens_grey() {
    let with_alpha =
        DynamicImage::ImageRgba8(ImageBuffer::from_pixel(1, 1, Rgba([1u8, 2, 3, 128])));
    assert_eq!(ImageTexture::new(with_alpha).texel(0, 0), (1, 2, 3));
    let grey = DynamicImage::ImageLuma8(ImageBuffer::from_pixel(2, 2, Luma([77u8])));
    assert_eq!(ImageTexture::new(grey).texel(1, 1), (77, 77, 77));
}

fn settings(width: u32, height: u32) -> OutputSettings {
    OutputSettings {
        format: OutputFormat::Png,
        filename_template: String::from("image.png"),
        width,
        height,
    }
}

#[test]
fn new_output_is_black() {
    let out = ImageOutput::new(&settings(2, 3)).unwrap();
    assert_eq!((out.width(), out.height()), (2, 3));
    assert_eq!(out.path(), "image.png");
    assert_eq!(out.bytes(), &vec![0u8; 18]);
}

#[test]
fn output_keeps_pixels_row_by_row() {
    let mut out = ImageOutput::new(&settings(2, 2)).unwrap();
    assert!(out.put_pixel(1, 0, 1, 2, 3).is_ok());
    assert!(out.put_pixel(0, 1, 4, 5, 6).is_ok());
    assert!(out.put_pixel(1, 0, 7, 8, 9).is_ok());
    assert_eq!(out.bytes(), &vec![0, 0, 0, 7, 8, 9, 4, 5, 6, 0, 0, 0]);
    assert_eq!((out.width(), out.height()), (2, 2));
}

#[test]
fn output_bytes_make_the_same_picture() {
    let mut out = ImageOutput::new(&settings(2, 1)).unwrap();
    out.put_pixel(0, 0, 255, 128, 0).unwrap();
    let again: ImageBuffer<Rgb<u8>, Vec<u8>> =
        ImageBuffer::from_raw(out.width(), out.height(), out.bytes().clone()).unwrap();
    assert_eq!(again.get_pixel(0, 0), &Rgb([255, 128, 0]));
    assert_eq!(again.get_pixel(1, 0), &Rgb([0, 0, 0]));
}

#[test]
fn output_takes_a_bucket_of_rows() {
    let mut out = ImageOutput::new(&settings(3, 2)).unwrap();
    let bucket = Bucket { x: 1, y: 0, width: 2, height: 2 };
    let pixels = vec![vec![(1, 2, 3), (4, 5, 6)], vec![(7, 8, 9)]];
    assert!(out.put_bucket(&bucket, &pixels).is_ok());
    assert_eq!(
        out.bytes(),
        &vec![0, 0, 0, 1, 2, 3, 4, 5, 6, 0, 0, 0, 7, 8, 9, 0, 0, 0]
    );
}

#[test]
fn lookup_gives_the_texel_of_a_usable_picture() {
    let texture = ImageTexture::new(picture());
    assert_eq!(texture.lookup(2, 1), Some((20, 20, 3)));
    assert_eq!(texture.lookup(-1, 7), Some((0, 20, 1)));
}

#[test]
fn lookup_in_a_picture_without_pixels_gives_nothing() {
    let empty = DynamicImage::ImageRgb8(ImageBuffer::new(0, 0));
    assert_eq!(ImageTexture::new(empty).lookup(0, 0), None);
    let flat = DynamicImage::ImageRgb8(ImageBuffer::new(4, 0));
    assert_eq!(ImageTexture::new(flat).lookup(1, 0), None);
}
