//! The values that a report carries: file groups and the report header.

use vstd::prelude::*;

verus! {

/// A file length in bytes.
#[derive(Clone, Copy, Debug, PartialEq, Eq, Structural)]
pub struct FileLen(pub u64);

/// A 128-bit fingerprint of file contents.
#[derive(Clone, Copy, Debug, PartialEq, Eq, Structural)]
pub struct FileHash(pub u128);

/// Files of equal length and equal hash.
#[derive(Clone, Debug, PartialEq, Eq)]
pub struct FileGroup {
    pub file_len: FileLen,
    pub file_hash: FileHash,
    pub files: Vec<String>,
}

/// How many redundant files were found, in how many groups, and how many
/// bytes removing them would reclaim.
#[derive(Clone, Copy, Debug, PartialEq, Eq, Structural)]
pub struct FileStats {
    pub group_count: usize,
    pub redundant_file_count: usize,
    pub redundant_file_size: FileLen,
}

/// An instant with a fixed offset from UTC: seconds and nanoseconds since
/// the Unix epoch, and the offset in seconds east of UTC.
#[derive(Clone, Copy, Debug, PartialEq, Eq, Structural)]
pub struct Timestamp {
    pub secs: i64,
    pub nanos: u32,
    pub offset_secs: i32,
}

/// The header of a report.
#[derive(Clone, Debug, PartialEq, Eq)]
pub struct ReportHeader {
    /// The program version that produced the report.
    pub version: String,
    /// When the report was produced.
    pub timestamp: Timestamp,
    /// The arguments of the search run that produced the report.
    pub command: Vec<String>,
    /// The counts of duplicate files, where known.
    pub stats: Option<FileStats>,
}

/// The formats a report can be written in.
#[derive(Clone, Copy, Debug, PartialEq, Eq, Structural)]
pub enum OutputFormat {
    Default,
    Fdupes,
    Csv,
    Json,
}

/// The texts of a sequence of strings.
pub open spec fn texts(v: Seq<String>) -> Seq<Seq<char>> {
    v.map_values(|s: String| s@)
}

impl Timestamp {
    /// Seconds since the Unix epoch.
    pub fn timestamp(&self) -> (r: i64)
        ensures
            r == self.secs,
    {
        self.secs
    }
}

impl FileGroup {
    /// The spec view of the paths of the group.
    pub open spec fn paths(&self) -> Seq<Seq<char>> {
        texts(self.files@)
    }
}

} // verus!
