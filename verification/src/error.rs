//! What can go wrong while the rendered image is handed out.

use vstd::prelude::*;
use vstd::string::StringExecFns;

verus! {

/// A failure of the output side of the renderer.
#[derive(Debug)]
pub enum Error {
    /// The file name asks for an image format that is not written.
    UnsupportedImageFormat,
    /// The viewer asked to stop rendering.
    ExitRequested,
}

impl Error {
    /// The text of `description`.
    pub open spec fn description_text(self) -> Seq<char> {
        match self {
            Error::UnsupportedImageFormat => "Unsupported file format"@,
            Error::ExitRequested => "Exit Requested"@,
        }
    }

    /// A short description of the failure.
    pub fn description(&self) -> (text: &'static str)
        ensures
            text@ == self.description_text(),
    {
        match self {
            Error::UnsupportedImageFormat => "Unsupported file format",
            Error::ExitRequested => "Exit Requested",
        }
    }

    /// The failure as a line for the user: the description behind the
    /// words `Output Error: `.
    pub fn message(&self) -> (text: String)
        ensures
            text@ == "Output Error: "@ + self.description_text(),
    {
        String::from_str("Output Error: ").concat(self.description())
    }
}

} // verus!
