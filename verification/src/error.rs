//! The failures that the library reports.

use vstd::prelude::*;

verus! {

/// What is wrong with a colour that was not accepted.
#[derive(Clone, Copy, Debug, PartialEq, Eq, Structural)]
pub enum ColorFault {
    /// Without its leading `#`, the text is neither three nor six bytes long.
    Length,
    /// The text has the right length and holds a character that is no
    /// hexadecimal digit.
    Digit,
}

/// A setting of the output that some source has to provide.
#[derive(Clone, Copy, Debug, PartialEq, Eq, Structural)]
pub enum Setting {
    Width,
    Height,
    Fps,
}

/// A failure that ends the run.
#[derive(Clone, Copy, Debug, PartialEq, Eq, Structural)]
pub enum Error {
    /// The descriptor has a header or a directive that cannot be read.
    MalformedDescriptor,
    /// The descriptor has no header line.
    MissingDescriptor,
    /// A part holds neither PNG nor JPG frames.
    NoFramesFound,
    /// There is no frame to put into parts.
    NoFramesToProcess,
    /// A background colour is not `#RRGGBB` or `#RGB`.
    InvalidColor(ColorFault),
    /// A width, a height or a frame rate cannot be used.
    InvalidDimension,
    /// No source provides a setting that is needed.
    MissingRequiredValue(Setting),
}

/// The sentence that tells a failure to the person who started the run.
pub open spec fn message_of(e: Error) -> Seq<char> {
    match e {
        Error::MalformedDescriptor => "Unable to parse desc.txt: malformed line"@,
        Error::MissingDescriptor => "Unable to parse desc.txt"@,
        Error::NoFramesFound => "No valid frames (PNG or JPG) found"@,
        Error::NoFramesToProcess => "No frames found to process"@,
        Error::InvalidColor(ColorFault::Length) => "Invalid color format. Use #RRGGBB or #RGB"@,
        Error::InvalidColor(ColorFault::Digit) => "Invalid hex color code"@,
        Error::InvalidDimension => "Invalid width, height or fps"@,
        Error::MissingRequiredValue(Setting::Width) => "Width not specified and could not be determined from video"@,
        Error::MissingRequiredValue(Setting::Height) => "Height not specified and could not be determined from video"@,
        Error::MissingRequiredValue(Setting::Fps) => "FPS not specified and could not be determined from video"@,
    }
}

impl Error {
    /// A sentence for the person who started the run.
    pub fn message(&self) -> (text: &'static str)
        ensures
            text@ == message_of(*self),
    {
        match self {
            Error::MalformedDescriptor => "Unable to parse desc.txt: malformed line",
            Error::MissingDescriptor => "Unable to parse desc.txt",
            Error::NoFramesFound => "No valid frames (PNG or JPG) found",
            Error::NoFramesToProcess => "No frames found to process",
            Error::InvalidColor(ColorFault::Length) => "Invalid color format. Use #RRGGBB or #RGB",
            Error::InvalidColor(ColorFault::Digit) => "Invalid hex color code",
            Error::InvalidDimension => "Invalid width, height or fps",
            Error::MissingRequiredValue(Setting::Width) => {
                "Width not specified and could not be determined from video"
            },
            Error::MissingRequiredValue(Setting::Height) => {
                "Height not specified and could not be determined from video"
            },
            Error::MissingRequiredValue(Setting::Fps) => {
                "FPS not specified and could not be determined from video"
            },
        }
    }
}

} // verus!
