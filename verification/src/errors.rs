//! The error taxonomy of the contact index core.

use vstd::prelude::*;

verus! {

/// Everything that can go wrong in the index subsystem.
///
/// `MalformedContactFile` is tolerated (skipped) during a full rebuild;
/// every other variant aborts the running subcommand.
#[derive(Clone, Copy, Debug, PartialEq, Eq, Structural)]
pub enum MatesError {
    /// A contact file has no parseable email line.
    MalformedContactFile,
    /// A raw message holds no usable sender header.
    NoSenderFound,
    /// The contact directory cannot be listed.
    DirectoryUnreadable,
    /// The index file cannot be opened for appending.
    IndexUnwritable,
    /// A line of the index file cannot be decoded.
    IndexCorrupt,
    /// The index file does not exist; a full build must run first.
    IndexMissing,
    /// The path generated for a new contact file is already occupied.
    ContactFileExists,
    /// The contact directory rejects the creation of a new file.
    DirectoryUnwritable,
    /// A query used as an edit target matched more than one record.
    AmbiguousQuery,
    /// A query used as an edit target matched no record.
    NoMatch,
}

impl MatesError {
    /// A human-readable description, for the process exit message.
    pub fn message(&self) -> &'static str {
        match self {
            MatesError::MalformedContactFile => "contact file has no parseable email line",
            MatesError::NoSenderFound => "no sender found in the given message",
            MatesError::DirectoryUnreadable => "could not list the contact directory",
            MatesError::IndexUnwritable => "could not open the index file for appending; run the index command first",
            MatesError::IndexCorrupt => "the index file is corrupt; re-run the index command",
            MatesError::IndexMissing => "the index file is missing; run the index command first",
            MatesError::ContactFileExists => "a contact file already exists at the generated path",
            MatesError::DirectoryUnwritable => "could not create a file in the contact directory",
            MatesError::AmbiguousQuery => "the query matched more than one contact",
            MatesError::NoMatch => "the query matched no contact",
        }
    }
}

} // verus!
