//! Error taxonomy of the container reader.

use vstd::prelude::*;

verus! {

/// Everything that can go wrong while opening a container or extracting an
/// entry from it.
#[derive(Clone, Copy, Debug, PartialEq, Eq, Structural)]
pub enum ObbyError {
    /// The magic tag does not match, or a signed count/length field is
    /// negative.
    InvalidHeader,
    /// The byte source ended in the middle of a field or of an entry payload.
    Truncated,
    /// The requested entry name is not in the table.
    EntryNotFound,
    /// A declared-compressed entry did not decode as a raw deflate stream.
    CorruptData,
    /// A convenience text extraction met bytes that are not valid UTF-8.
    InvalidEncoding,
}

impl ObbyError {
    /// A short human-readable description of the error.
    pub fn describe(&self) -> (r: &'static str)
        ensures
            r@ == match self {
                ObbyError::InvalidHeader => "invalid plugin header"@,
                ObbyError::Truncated => "unexpected end of data"@,
                ObbyError::EntryNotFound => "entry not found in archive"@,
                ObbyError::CorruptData => "corrupt compressed data"@,
                ObbyError::InvalidEncoding => "entry is not valid UTF-8"@,
            },
    {
        match self {
            ObbyError::InvalidHeader => "invalid plugin header",
            ObbyError::Truncated => "unexpected end of data",
            ObbyError::EntryNotFound => "entry not found in archive",
            ObbyError::CorruptData => "corrupt compressed data",
            ObbyError::InvalidEncoding => "entry is not valid UTF-8",
        }
    }
}

} // verus!
