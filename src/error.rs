//! Errors of reading and writing reports.

use vstd::prelude::*;

verus! {

/// Why a report could not be read or written.
#[derive(Clone, Debug, PartialEq, Eq)]
pub enum ReportError {
    MissingVersion,
    MissingTimestamp,
    BadTimestamp,
    MissingCommand,
    BadCommand,
    BadGroupCount,
    MissingStats,
    BadFileSize,
    BadFileCount,
    /// A line where a group header was expected; the line is kept.
    MalformedGroupHeader(String),
    /// A line where an indented path was expected; the line is kept.
    PathExpected(String),
    UnexpectedEof,
    UnknownFormat,
    /// The timestamp of the header cannot be rendered.
    TimestampOutOfRange,
    /// The header of a report was asked for a second time.
    HeaderAlreadyRead,
    /// The groups of a report were asked for before its header.
    HeaderNotRead,
}

impl ReportError {
    /// Tells a malformed report from an early end of it.
    pub fn is_unexpected_eof(&self) -> (r: bool)
        ensures
            r == (self is UnexpectedEof),
    {
        match self {
            ReportError::UnexpectedEof => true,
            _ => false,
        }
    }
}

} // verus!
