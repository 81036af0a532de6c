//! The error taxonomy of the reader.

use vstd::prelude::*;

verus! {

/// What can go wrong while reading an IDX source.
///
/// `UnexpectedEof` is the one read failure an in-memory source can raise: the
/// data ran out in the middle of a unit (a header field, a scalar, an item).
/// Running out exactly between units is not an error; the reading operations
/// treat it as graceful completion instead of returning this variant.
#[derive(Clone, Copy, Debug, PartialEq, Eq, Structural)]
pub enum MnistError {
    /// The data ended before a mandatory unit was complete.
    UnexpectedEof,
    /// The file itself is malformed: the fixed reserved header field was not
    /// zero, or the type tag byte is unrecognised.
    InvalidFormat,
    /// The caller asked to decode as a scalar kind that does not match the
    /// kind the header declares.
    InvalidElementType,
    /// Reserved for malformed content beyond header and type concerns.
    Parse,
}

impl MnistError {
    /// A short human-readable account of the error.
    pub fn description(&self) -> &'static str {
        match *self {
            MnistError::UnexpectedEof => "unexpected end of data",
            MnistError::InvalidFormat => "invalid format",
            MnistError::InvalidElementType => "invalid element type",
            MnistError::Parse => "unable to parse",
        }
    }
}

} // verus!
