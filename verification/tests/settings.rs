use raytracer::error::Error;
use raytracer::settings::{format_for_extension, OutputFormat, OutputSettings};

fn settings() -> OutputSettings {
    OutputSettings {
        format: OutputFormat::Ppm,
        filename_template: String::from("image.ppm"),
        width: 500,
        height: 400,
    }
}

#[test]
fn png_name_sets_png() {
    let mut s = settings();
    assert!(s.set_filename_template(String::from("out.png")).is_ok());
    assert_eq!(s.format, OutputFormat::Png);
    assert_eq!(s.filename_template, "out.png");
    assert_eq!((s.width, s.height), (500, 400));
}

#[test]
fn jpg_name_sets_jpg() {
    let mut s = settings();
    assert!(s.set_filename_template(String::from("renders/frame.0001.jpg")).is_ok());
    assert_eq!(s.format, OutputFormat::Jpg);
    assert_eq!(s.filename_template, "renders/frame.0001.jpg");
}

#[test]
fn jpegg_name_sets_jpg() {
    let mut s = settings();
    assert!(s.set_filename_template(String::from("out.jpegg")).is_ok());
    assert_eq!(s.format, OutputFormat::Jpg);
}

#[test]
fn other_extensions_are_refused_and_change_nothing() {
    for name in ["out.jpeg", "out.PNG", "out.ppm", "out.png.bak", "out.", "png"] {
        let mut s = settings();
        let result = s.set_filename_template(String::from(name));
        assert!(matches!(result, Err(Error::UnsupportedImageFormat)));
        assert_eq!(s.format, OutputFormat::Ppm);
        assert_eq!(s.filename_template, "image.ppm");
        assert_eq!((s.width, s.height), (500, 400));
    }
}

#[test]
fn name_without_extension_is_refused() {
    for name in ["out", "", "dir.d/out", ".png"] {
        let mut s = settings();
        let result = s.set_filename_template(String::from(name));
        assert!(matches!(result, Err(Error::UnsupportedImageFormat)));
        assert_eq!(s.filename_template, "image.ppm");
    }
}

#[test]
fn extension_decides_when_handed_in() {
    let mut s = settings();
    let result = s.set_template_with_extension(String::from("anything"), Some(String::from("png")));
    assert!(result.is_ok());
    assert_eq!(s.format, OutputFormat::Png);
    assert_eq!(s.filename_template, "anything");

    let mut s = settings();
    let result = s.set_template_with_extension(String::from("out.png"), None);
    assert!(matches!(result, Err(Error::UnsupportedImageFormat)));
    assert_eq!(s.format, OutputFormat::Ppm);
    assert_eq!(s.filename_template, "image.ppm");

    let mut s = settings();
    let result = s.set_template_with_extension(String::from("out.png"), Some(String::from("gif")));
    assert!(matches!(result, Err(Error::UnsupportedImageFormat)));
    assert_eq!(s.filename_template, "image.ppm");
}

#[test]
fn formats_by_extension() {
    assert_eq!(format_for_extension(&String::from("png")), Some(OutputFormat::Png));
    assert_eq!(format_for_extension(&String::from("jpg")), Some(OutputFormat::Jpg));
    assert_eq!(format_for_extension(&String::from("jpegg")), Some(OutputFormat::Jpg));
    assert_eq!(format_for_extension(&String::from("jpeg")), None);
    assert_eq!(format_for_extension(&String::from("ppm")), None);
    assert_eq!(format_for_extension(&String::from("")), None);
}

#[test]
fn error_texts() {
    assert_eq!(Error::UnsupportedImageFormat.description(), "Unsupported file format");
    assert_eq!(Error::ExitRequested.description(), "Exit Requested");
    assert_eq!(
        Error::UnsupportedImageFormat.message(),
        "Output Error: Unsupported file format"
    );
    assert_eq!(Error::ExitRequested.message(), "Output Error: Exit Requested");
}
