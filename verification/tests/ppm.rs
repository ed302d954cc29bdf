use raytracer::buckets::Bucket;
use raytracer::ppm::PpmOutput;
use raytracer::settings::{OutputFormat, OutputSettings};

fn settings(width: u32, height: u32) -> OutputSettings {
    OutputSettings {
        format: OutputFormat::Ppm,
        filename_template: String::from("image.ppm"),
        width,
        height,
    }
}

#[test]
fn new_image_is_black() {
    let out = PpmOutput::new(&settings(2, 2)).unwrap();
    assert_eq!(out.path(), "image.ppm");
    assert_eq!(
        String::from_utf8(out.encode()).unwrap(),
        "P3\n2 2\n255\n0 0 0\n0 0 0\n0 0 0\n0 0 0\n"
    );
}

#[test]
fn pixels_are_written_row_by_row() {
    let mut out = PpmOutput::new(&settings(3, 2)).unwrap();
    assert!(out.put_pixel(0, 0, 255, 0, 10).is_ok());
    assert!(out.put_pixel(2, 0, 1, 2, 3).is_ok());
    assert!(out.put_pixel(1, 1, 99, 100, 101).is_ok());
    assert_eq!(
        String::from_utf8(out.encode()).unwrap(),
        "P3\n3 2\n255\n255 0 10\n0 0 0\n1 2 3\n0 0 0\n99 100 101\n0 0 0\n"
    );
}

#[test]
fn later_colour_replaces_earlier() {
    let mut out = PpmOutput::new(&settings(1, 1)).unwrap();
    out.put_pixel(0, 0, 1, 1, 1).unwrap();
    out.put_pixel(0, 0, 7, 80, 200).unwrap();
    assert_eq!(String::from_utf8(out.encode()).unwrap(), "P3\n1 1\n255\n7 80 200\n");
}

#[test]
fn empty_image_is_header_only() {
    let out = PpmOutput::new(&settings(0, 0)).unwrap();
    assert_eq!(String::from_utf8(out.encode()).unwrap(), "P3\n0 0\n255\n");
    let out = PpmOutput::new(&settings(1200, 0)).unwrap();
    assert_eq!(String::from_utf8(out.encode()).unwrap(), "P3\n1200 0\n255\n");
}

#[test]
fn large_sizes_are_written_in_full() {
    let out = PpmOutput::new(&settings(1024, 1)).unwrap();
    let text = String::from_utf8(out.encode()).unwrap();
    assert!(text.starts_with("P3\n1024 1\n255\n0 0 0\n"));
    assert_eq!(text.lines().count(), 3 + 1024);
}

#[test]
fn bucket_rows_go_to_their_place() {
    let mut out = PpmOutput::new(&settings(3, 2)).unwrap();
    let bucket = Bucket { x: 1, y: 0, width: 2, height: 2 };
    let pixels = vec![vec![(1, 2, 3), (4, 5, 6)], vec![(7, 8, 9)]];
    assert!(out.put_bucket(&bucket, &pixels).is_ok());
    assert_eq!(
        String::from_utf8(out.encode()).unwrap(),
        "P3\n3 2\n255\n0 0 0\n1 2 3\n4 5 6\n0 0 0\n7 8 9\n0 0 0\n"
    );
}
