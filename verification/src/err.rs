//! The errors of the raw header readers.
use vstd::prelude::*;

verus! {

/// The error type returned when reading raw headers.
#[derive(Clone, Copy, Debug, PartialEq, Eq, Structural)]
pub enum ParseError {
    /// There was not enough data to read.
    NotEnoughData,
    /// The data was not valid.
    InvalidData,
    /// A string was not in a valid encoding.
    InvalidEncoding,
    /// The data is of an unsupported kind.
    Unsupported,
    /// The data was not found.
    NotFound,
}

/// The result given after reading a raw header.
pub type ParseResult<T> = Result<T, ParseError>;

impl ParseError {
    /// The name of this error.
    pub fn name(&self) -> (r: &'static str)
        ensures
            r@ == match self {
                ParseError::NotEnoughData => "NotEnoughData"@,
                ParseError::InvalidData => "InvalidData"@,
                ParseError::InvalidEncoding => "InvalidEncoding"@,
                ParseError::Unsupported => "Unsupported"@,
                ParseError::NotFound => "NotFound"@,
            },
    {
        match self {
            ParseError::NotEnoughData => "NotEnoughData",
            ParseError::InvalidData => "InvalidData",
            ParseError::InvalidEncoding => "InvalidEncoding",
            ParseError::Unsupported => "Unsupported",
            ParseError::NotFound => "NotFound",
        }
    }
}

} // verus!
