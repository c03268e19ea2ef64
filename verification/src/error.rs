use vstd::prelude::*;

verus! {

/// Why a color string could not be read.
#[derive(Debug, PartialEq, Eq, Clone, Copy, Structural)]
pub enum ParseError {
    InvalidHex,
    InvalidRgb,
    InvalidHsl,
    InvalidFormat,
    InvalidAlpha,
    InvalidValue,
}

/// The human-readable description of each error kind.
pub open spec fn error_message(e: ParseError) -> Seq<char> {
    match e {
        ParseError::InvalidHex => "Invalid hexadecimal color format"@,
        ParseError::InvalidRgb => "Invalid RGB values"@,
        ParseError::InvalidHsl => "Invalid HSL values"@,
        ParseError::InvalidFormat => "Invalid color format"@,
        ParseError::InvalidAlpha => "Invalid alpha value"@,
        ParseError::InvalidValue => "Invalid color value"@,
    }
}

impl ParseError {
    /// The message shown for this error.
    pub fn message(&self) -> (m: &'static str)
        ensures
            m@ == error_message(*self),
    {
        match self {
            ParseError::InvalidHex => "Invalid hexadecimal color format",
            ParseError::InvalidRgb => "Invalid RGB values",
            ParseError::InvalidHsl => "Invalid HSL values",
            ParseError::InvalidFormat => "Invalid color format",
            ParseError::InvalidAlpha => "Invalid alpha value",
            ParseError::InvalidValue => "Invalid color value",
        }
    }
}

} // verus!
