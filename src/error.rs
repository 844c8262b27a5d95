//! The ways a parse can fail.
use vstd::prelude::*;

verus! {

/// Why a subtitle document or a timestamp could not be parsed.
#[derive(Copy, Clone, Debug, PartialEq, Eq, Structural)]
pub enum SrtError {
    /// A timestamp lacked one of its four fields, or a timing line lacked its end time.
    TimestampParsingError,
    /// A caption number or a timestamp field was not a valid unsigned integer of its type.
    NumericParseError,
    /// A blank line closed a caption that lacked its number, times or text.
    CaptionBuilderError,
    /// A timestamp's total number of seconds does not fit in 64 bits.
    TimestampOverflow,
}

impl SrtError {
    /// A short human-readable description of the error.
    pub fn message(&self) -> (r: &'static str) {
        match self {
            SrtError::TimestampParsingError => "Timestamp Parsing Error",
            SrtError::NumericParseError => "Numeric Parse Error",
            SrtError::CaptionBuilderError => "Caption Builder Error",
            SrtError::TimestampOverflow => "Timestamp Overflow",
        }
    }
}

} // verus!
