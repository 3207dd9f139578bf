//! The input tree as the caller read it from disk.

use std::path::PathBuf;
use vstd::prelude::*;

verus! {

/// `std::path::PathBuf`, carried through without looking inside: the crate
/// compares paths for equality and hands them on, nothing else.
#[verifier::external_type_specification]
#[verifier::external_body]
pub struct ExPathBuf(PathBuf);

/// `PathBuf::clone` gives back a path equal to the one it was called on.
pub assume_specification[ <PathBuf as Clone>::clone ](path: &PathBuf) -> (copy: PathBuf)
    ensures
        copy == *path,
;

/// What the caller found out about one directory entry.
#[derive(Debug)]
pub enum EntryKind {
    /// A regular file, with the pixel size of the image it holds where one
    /// was recognised: width first, then height.
    File { dimensions: Option<(usize, usize)> },
    /// A directory together with its entries, in the order they were read;
    /// without entries where it was not listed.
    Directory { entries: Vec<Entry> },
    /// A directory whose entries could not be read.
    Unreadable,
    /// Neither a regular file nor a directory.
    Other,
    /// The type of the entry is not known: it could not be determined, or
    /// the entry is hidden and was not looked at.
    Unknown,
}

/// One entry of a directory.
#[derive(Debug)]
pub struct Entry {
    /// The last component of the path, as text.
    pub name: String,
    /// Where the entry lies.
    pub path: PathBuf,
    /// What the entry is.
    pub kind: EntryKind,
}

impl Entry {
    /// The entry takes part in the archive: its name is not hidden.
    pub open spec fn visible(self) -> bool {
        !crate::text::hidden(self.name@)
    }

    /// The entry is a directory, read or not.
    pub open spec fn is_directory(self) -> bool {
        self.kind is Directory || self.kind is Unreadable
    }
}

} // verus!
