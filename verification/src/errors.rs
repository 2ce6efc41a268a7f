//! The error surface of archive reading and extraction.

use vstd::prelude::*;

verus! {

/// The stage at which working with an archive failed.
///
/// The first two and the last variant belong to the caller's file handling
/// (opening, mapping and writing files); the middle four are produced by the
/// byte-level reader and the extractor in this crate. Extraction aborts on
/// the first failure, so one kind describes a whole failed run.
#[derive(Clone, Copy, Debug, PartialEq, Eq, Structural)]
pub enum ErrorKind {
    /// The archive file could not be opened.
    OpenFile,
    /// The archive file could not be mapped into memory.
    MmapFile,
    /// The bytes do not start with a well-formed archive magic line.
    ParseArchive,
    /// A member header is truncated or malformed, or carries an empty or
    /// reserved name.
    ReadEntry,
    /// A member's declared payload runs past the end of the archive.
    ArchiveMember,
    /// A member name is not valid text; extraction aborts on it whether or
    /// not that member was asked for.
    ConvertName,
    /// An extracted member could not be written to the output directory.
    WriteFile,
}

impl ErrorKind {
    /// What `describe` returns for each kind.
    pub open spec fn spec_describe(self) -> Seq<char> {
        match self {
            ErrorKind::OpenFile => "failed to open the archive file"@,
            ErrorKind::MmapFile => "failed to map the archive file"@,
            ErrorKind::ParseArchive => "the bytes are not an archive"@,
            ErrorKind::ReadEntry => "malformed archive member header"@,
            ErrorKind::ArchiveMember => "archive member payload out of bounds"@,
            ErrorKind::ConvertName => "archive member name is not valid text"@,
            ErrorKind::WriteFile => "failed to write an extracted member"@,
        }
    }

    /// A short human-readable description of the failing stage.
    pub fn describe(self) -> (r: &'static str)
        ensures
            r@ == self.spec_describe(),
    {
        match self {
            ErrorKind::OpenFile => "failed to open the archive file",
            ErrorKind::MmapFile => "failed to map the archive file",
            ErrorKind::ParseArchive => "the bytes are not an archive",
            ErrorKind::ReadEntry => "malformed archive member header",
            ErrorKind::ArchiveMember => "archive member payload out of bounds",
            ErrorKind::ConvertName => "archive member name is not valid text",
            ErrorKind::WriteFile => "failed to write an extracted member",
        }
    }
}

} // verus!
