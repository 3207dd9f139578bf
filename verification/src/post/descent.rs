//! Collecting the files below a group directory, to a bounded depth.

use super::file::{guessed_mime, FanboxDLFileMeta, FileMeta};
use crate::text::is_hidden;
use crate::tree::{Entry, EntryKind};
use std::path::PathBuf;
use vstd::prelude::*;

verus! {

/// How many directory levels are read below a creator: the group directory
/// itself is level 1, and directories at a level above this are not read.
pub const MAX_DEPTH: usize = 5;

/// Why a creator's tree cannot be turned into posts.
#[derive(Debug, PartialEq, Eq)]
pub enum ArchiveError {
    /// The directory at this path is named like a plan, but its price does
    /// not fit in 32 bits.
    MalformedPlanTier(PathBuf),
    /// The directory at this path belongs to a group and could not be read.
    UnreadableDirectory(PathBuf),
    /// The type of the entry at this path could not be determined.
    UnknownEntryType(PathBuf),
}

/// The mathematical content of a file reference: metadata and source path.
pub struct FileView {
    pub filename: Seq<char>,
    pub mime: Seq<char>,
    pub dimensions: Option<(usize, usize)>,
    pub path: PathBuf,
}

/// The content of one file reference.
pub open spec fn file_view(file: (FileMeta, PathBuf)) -> FileView {
    FileView {
        filename: file.0.filename@,
        mime: file.0.mime@,
        dimensions: file.0.dimensions,
        path: file.1,
    }
}

/// The content of a list of file references.
pub open spec fn files_view(files: Seq<(FileMeta, PathBuf)>) -> Seq<FileView> {
    files.map_values(|file: (FileMeta, PathBuf)| file_view(file))
}

/// The file reference that a regular file gives rise to.
pub open spec fn entry_file(entry: Entry) -> FileView {
    FileView {
        filename: entry.name@,
        mime: guessed_mime(entry.name@),
        dimensions: match entry.kind {
            EntryKind::File { dimensions } => dimensions,
            _ => None,
        },
        path: entry.path,
    }
}

/// The visible regular files among `entries`, in order.
pub open spec fn listed_files(entries: Seq<Entry>) -> Seq<FileView>
    decreases entries.len(),
{
    if entries.len() == 0 {
        Seq::empty()
    } else {
        let before = listed_files(entries.drop_last());
        let entry = entries.last();
        if entry.visible() && entry.kind is File {
            before.push(entry_file(entry))
        } else {
            before
        }
    }
}

/// The path of the first visible entry of unknown type among `entries`.
pub open spec fn first_untyped(entries: Seq<Entry>) -> Option<PathBuf>
    decreases entries.len(),
{
    if entries.len() == 0 {
        None
    } else {
        match first_untyped(entries.drop_last()) {
            Some(path) => Some(path),
            None => {
                let entry = entries.last();
                if entry.visible() && entry.kind is Unknown {
                    Some(entry.path)
                } else {
                    None
                }
            },
        }
    }
}

/// The files found in a directory that holds `entries` and lies at `level`.
///
/// Above [`MAX_DEPTH`] nothing is read and nothing found. Otherwise every
/// visible entry must have a known type; the visible regular files come
/// first, in order, then what each visible subdirectory holds one level
/// further down, in order.
pub open spec fn directory_files(entries: Seq<Entry>, level: nat) -> Result<
    Seq<FileView>,
    ArchiveError,
>
    decreases MAX_DEPTH + 1 - level, 2nat, 0nat,
{
    if level > MAX_DEPTH {
        Ok(Seq::empty())
    } else {
        match first_untyped(entries) {
            Some(path) => Err(ArchiveError::UnknownEntryType(path)),
            None => match nested_files(entries, level + 1) {
                Ok(nested) => Ok(listed_files(entries) + nested),
                Err(error) => Err(error),
            },
        }
    }
}

/// The files below the visible subdirectories among `entries`, which lie at
/// `level`, or the first failure met on the way.
pub open spec fn nested_files(entries: Seq<Entry>, level: nat) -> Result<
    Seq<FileView>,
    ArchiveError,
>
    decreases MAX_DEPTH + 2 - level, 1nat, entries.len(),
{
    if entries.len() == 0 {
        Ok(Seq::empty())
    } else {
        match nested_files(entries.drop_last(), level) {
            Err(error) => Err(error),
            Ok(before) => match subdirectory_files(entries.last(), level) {
                Err(error) => Err(error),
                Ok(files) => Ok(before + files),
            },
        }
    }
}

/// The files below `entry`, taken as a directory at `level`. A hidden entry,
/// one that is no directory, and any directory above [`MAX_DEPTH`] give
/// none; a directory within the depth that could not be read is a failure.
pub open spec fn subdirectory_files(entry: Entry, level: nat) -> Result<
    Seq<FileView>,
    ArchiveError,
>
    decreases MAX_DEPTH + 2 - level, 0nat, 0nat,
{
    if !entry.visible() || level > MAX_DEPTH {
        Ok(Seq::empty())
    } else {
        match entry.kind {
            EntryKind::Directory { entries } => directory_files(entries@, level),
            EntryKind::Unreadable => Err(ArchiveError::UnreadableDirectory(entry.path)),
            _ => Ok(Seq::empty()),
        }
    }
}

/// An entry of unknown type found among the first entries is still the
/// first one when more entries follow.
pub proof fn lemma_first_untyped_of_prefix(entries: Seq<Entry>, k: int)
    requires
        0 <= k <= entries.len(),
        first_untyped(entries.take(k)) is Some,
    ensures
        first_untyped(entries) == first_untyped(entries.take(k)),
    decreases entries.len(),
{
    if k == entries.len() {
        assert(entries.take(k) =~= entries);
    } else {
        assert(entries.drop_last().take(k) =~= entries.take(k));
        lemma_first_untyped_of_prefix(entries.drop_last(), k);
    }
}

/// A failure met below the first entries stays the failure when more
/// entries follow.
pub proof fn lemma_nested_failure_of_prefix(entries: Seq<Entry>, level: nat, k: int)
    requires
        0 <= k <= entries.len(),
        nested_files(entries.take(k), level) is Err,
    ensures
        nested_files(entries, level) == nested_files(entries.take(k), level),
    decreases entries.len(),
{
    if k == entries.len() {
        assert(entries.take(k) =~= entries);
    } else {
        assert(entries.drop_last().take(k) =~= entries.take(k));
        lemma_nested_failure_of_prefix(entries.drop_last(), level, k);
    }
}

/// Collects the files of a directory that holds `entries` and lies at
/// `level`, as [`directory_files`] describes.
pub fn read_dir_files(entries: &Vec<Entry>, level: usize) -> (r: Result<
    Vec<(FileMeta, PathBuf)>,
    ArchiveError,
>)
    ensures
        match r {
            Ok(files) => directory_files(entries@, level as nat) == Ok::<_, ArchiveError>(
                files_view(files@),
            ),
            Err(error) => directory_files(entries@, level as nat) == Err::<Seq<FileView>, _>(error),
        },
    decreases MAX_DEPTH + 1 - level,
{
    let mut list: Vec<(FileMeta, PathBuf)> = Vec::new();
    if level > MAX_DEPTH {
        assert(files_view(list@) =~= Seq::empty());
        return Ok(list);
    }
    let mut i: usize = 0;
    while i < entries.len()
        invariant
            i <= entries.len(),
            level <= MAX_DEPTH,
            first_untyped(entries@.take(i as int)) is None,
            files_view(list@) == listed_files(entries@.take(i as int)),
        decreases entries.len() - i,
    {
        let entry = &entries[i];
        assert(entries@.take(i + 1).drop_last() =~= entries@.take(i as int));
        assert(entries@.take(i + 1).last() == entries@[i as int]);
        if !is_hidden(entry.name.as_str()) {
            match &entry.kind {
                EntryKind::Unknown => {
                    proof {
                        lemma_first_untyped_of_prefix(entries@, i + 1);
                    }
                    return Err(ArchiveError::UnknownEntryType(entry.path.clone()));
                },
                EntryKind::File { dimensions } => {
                    let file = FileMeta::from_path(
                        entry.name.clone(),
                        entry.path.clone(),
                        *dimensions,
                    );
                    let ghost before = list@;
                    list.push(file);
                    assert(files_view(list@) =~= files_view(before).push(entry_file(*entry)));
                },
                _ => {},
            }
        }
        i = i + 1;
    }
    assert(entries@.take(i as int) =~= entries@);
    let ghost listed = list@;
    let mut j: usize = 0;
    while j < entries.len()
        invariant
            j <= entries.len(),
            level <= MAX_DEPTH,
            first_untyped(entries@) is None,
            files_view(listed) == listed_files(entries@),
            nested_files(entries@.take(j as int), (level + 1) as nat) is Ok,
            files_view(list@) == files_view(listed) + nested_files(
                entries@.take(j as int),
                (level + 1) as nat,
            )->Ok_0,
        decreases entries.len() - j,
    {
        let entry = &entries[j];
        assert(entries@.take(j + 1).drop_last() =~= entries@.take(j as int));
        assert(entries@.take(j + 1).last() == entries@[j as int]);
        let ghost before = list@;
        let ghost nested = nested_files(entries@.take(j as int), (level + 1) as nat)->Ok_0;
        if !is_hidden(entry.name.as_str()) {
            match &entry.kind {
                EntryKind::Directory { entries: inner } => {
                    match read_dir_files(inner, level + 1) {
                        Ok(mut files) => {
                            let ghost found = files@;
                            list.append(&mut files);
                            assert(files_view(list@) =~= files_view(before) + files_view(found));
                            assert(files_view(listed) + (nested + files_view(found)) =~= (
                            files_view(listed) + nested) + files_view(found));
                        },
                        Err(error) => {
                            proof {
                                assert(level < MAX_DEPTH) by {
                                    if level >= MAX_DEPTH {
                                        assert(directory_files(inner@, (level + 1) as nat) is Ok);
                                    }
                                }
                                assert(subdirectory_files(*entry, (level + 1) as nat) == Err::<
                                    Seq<FileView>,
                                    _,
                                >(error));
                                lemma_nested_failure_of_prefix(
                                    entries@,
                                    (level + 1) as nat,
                                    j + 1,
                                );
                            }
                            return Err(error);
                        },
                    }
                },
                EntryKind::Unreadable => {
                    if level < MAX_DEPTH {
                        proof {
                            assert(subdirectory_files(*entry, (level + 1) as nat) is Err);
                            lemma_nested_failure_of_prefix(entries@, (level + 1) as nat, j + 1);
                        }
                        return Err(ArchiveError::UnreadableDirectory(entry.path.clone()));
                    }
                },
                _ => {},
            }
        }
        assert(nested_files(entries@.take(j + 1), (level + 1) as nat) is Ok);
        assert(files_view(list@) =~= files_view(listed) + nested_files(
            entries@.take(j + 1),
            (level + 1) as nat,
        )->Ok_0);
        j = j + 1;
    }
    assert(entries@.take(j as int) =~= entries@);
    Ok(list)
}

} // verus!
