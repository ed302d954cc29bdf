//! Where the image goes, in which format and at what size.

use crate::error::Error;
use vstd::prelude::*;
use vstd::string::StringExecFns;

verus! {

/// How the finished image is handed out.
#[derive(Debug, Clone, Copy, PartialEq, Eq, Structural)]
pub enum OutputFormat {
    /// Into a window, bucket by bucket.
    Gui,
    /// A plain-text PPM file.
    Ppm,
    /// A PNG file.
    Png,
    /// A JPEG file.
    Jpg,
}

/// Format, file name and size of the output.
#[derive(Debug, Clone)]
pub struct OutputSettings {
    pub format: OutputFormat,
    pub filename_template: String,
    pub width: u32,
    pub height: u32,
}

/// The format that a file name's extension asks for, if it is one that the
/// renderer writes.
pub open spec fn extension_format(extension: Seq<char>) -> Option<OutputFormat> {
    if extension == "png"@ {
        Some(OutputFormat::Png)
    } else if extension == "jpg"@ || extension == "jpegg"@ {
        Some(OutputFormat::Jpg)
    } else {
        None
    }
}

/// Whether `extension` stands in `path` right behind a dot that is not the
/// first character, and holds no dot itself.
pub open spec fn follows_dot(path: Seq<char>, extension: Seq<char>) -> bool {
    &&& !extension.contains('.')
    &&& exists|i: int|
        1 <= i < path.len() && path[i] == '.' && i + 1 + extension.len() <= path.len()
            && #[trigger] path.subrange(i + 1, i + 1 + extension.len()) == extension
}

/// The extension of the file that `path` names, by
/// `std::path::Path::extension`.
///
/// Believed of that function, not proved: an extension, where there is one,
/// is the part of the path behind the last dot of the file name, so it
/// follows a dot and holds none; and a path without any dot has no
/// extension. Which part of the path is the file name depends on the
/// platform's separators and is not stated.
#[verifier::external_body]
fn path_extension(path: &String) -> (extension: Option<String>)
    ensures
        extension matches Some(e) ==> follows_dot(path@, e@),
        !path@.contains('.') ==> extension is None,
{
    std::path::Path::new(path).extension().map(|e| e.to_string_lossy().into_owned())
}

/// The format that the extension `extension` asks for.
pub fn format_for_extension(extension: &String) -> (format: Option<OutputFormat>)
    ensures
        format == extension_format(extension@),
{
    if *extension == String::from_str("png") {
        Some(OutputFormat::Png)
    } else if *extension == String::from_str("jpg") || *extension == String::from_str("jpegg") {
        Some(OutputFormat::Jpg)
    } else {
        None
    }
}

impl OutputSettings {
    /// Takes `tmpl` as the output's file name if `extension`, the extension
    /// found in it, names a format that is written, and sets the format by
    /// it. Otherwise the settings stay as they are.
    pub fn set_template_with_extension(&mut self, tmpl: String, extension: Option<String>) -> (result:
        Result<(), Error>)
        ensures
            match extension {
                Some(e) if extension_format(e@) is Some => {
                    &&& result is Ok
                    &&& final(self).format == extension_format(e@)->0
                    &&& final(self).filename_template@ == tmpl@
                    &&& final(self).width == old(self).width
                    &&& final(self).height == old(self).height
                },
                _ => {
                    &&& result matches Err(Error::UnsupportedImageFormat)
                    &&& *final(self) == *old(self)
                },
            },
    {
        match extension {
            Some(e) => match format_for_extension(&e) {
                Some(format) => {
                    self.format = format;
                    self.filename_template = tmpl;
                    Ok(())
                },
                None => Err(Error::UnsupportedImageFormat),
            },
            None => Err(Error::UnsupportedImageFormat),
        }
    }

    /// Takes `tmpl` as the output's file name and sets the format by its
    /// extension: `png` for PNG; `jpg` or `jpegg` for JPEG. A name with
    /// another extension, or with none, is refused and changes nothing.
    pub fn set_filename_template(&mut self, tmpl: String) -> (result: Result<(), Error>)
        ensures
            match result {
                Ok(()) => {
                    &&& exists|e: Seq<char>|
                        #[trigger] follows_dot(tmpl@, e) && extension_format(e) == Some(
                            final(self).format,
                        )
                    &&& final(self).filename_template@ == tmpl@
                    &&& final(self).width == old(self).width
                    &&& final(self).height == old(self).height
                },
                Err(e) => e is UnsupportedImageFormat && *final(self) == *old(self),
            },
            !tmpl@.contains('.') ==> result is Err,
    {
        let extension = path_extension(&tmpl);
        let ghost found = extension;
        let result = self.set_template_with_extension(tmpl, extension);
        proof {
            if result is Ok {
                assert(follows_dot(tmpl@, found->0@));
            }
        }
        result
    }
}

} // verus!
