//! File metadata as the archive records it.

use std::path::PathBuf;
use vstd::prelude::*;

verus! {

/// What the archive records of one file.
#[derive(Debug, PartialEq, Eq)]
pub struct FileMeta {
    /// The file's name inside its post.
    pub filename: String,
    /// Its media type.
    pub mime: String,
    /// Width and height in pixels, for a recognised image.
    pub dimensions: Option<(usize, usize)>,
}

/// The mathematical content of a [`FileMeta`].
pub struct FileMetaView {
    pub filename: Seq<char>,
    pub mime: Seq<char>,
    pub dimensions: Option<(usize, usize)>,
}

impl View for FileMeta {
    type V = FileMetaView;

    open spec fn view(&self) -> FileMetaView {
        FileMetaView { filename: self.filename@, mime: self.mime@, dimensions: self.dimensions }
    }
}

/// The media type that `mime_guess` assigns to a file of the given name:
/// the first entry of its table for the name's extension, or
/// `application/octet-stream` where the table has none.
pub uninterp spec fn guessed_mime(name: Seq<char>) -> Seq<char>;

/// Calls `mime_guess::MimeGuess::from_path` and, on its result,
/// `first_or_octet_stream`, and renders the media type as text. The guess
/// reads nothing but the extension of the last path component and touches no
/// disk, so the result depends on the name alone; the contract gives it the
/// name [`guessed_mime`] and claims no more.
#[verifier::external_body]
fn guess_mime(name: &str) -> (mime: String)
    ensures
        mime@ == guessed_mime(name@),
{
    mime_guess::MimeGuess::from_path(name).first_or_octet_stream().to_string()
}

impl Clone for FileMeta {
    fn clone(&self) -> (copy: Self)
        ensures
            copy@ == self@,
    {
        FileMeta {
            filename: self.filename.clone(),
            mime: self.mime.clone(),
            dimensions: self.dimensions,
        }
    }
}

impl FileMeta {
    /// The metadata of a file with the given name, media type and image size.
    pub fn new(filename: String, mime: String, dimensions: Option<(usize, usize)>) -> (meta: Self)
        ensures
            meta@ == (FileMetaView { filename: filename@, mime: mime@, dimensions }),
    {
        FileMeta { filename, mime, dimensions }
    }
}

/// Building file metadata from a file found on disk.
pub trait FanboxDLFileMeta: Sized {
    /// The metadata of the file `name` that lies at `path`, paired with that
    /// path. `dimensions` is the image size that the caller probed, if any.
    fn from_path(name: String, path: PathBuf, dimensions: Option<(usize, usize)>) -> (Self, PathBuf);
}

impl FanboxDLFileMeta for FileMeta {
    /// The media type is guessed from the name's extension.
    fn from_path(name: String, path: PathBuf, dimensions: Option<(usize, usize)>) -> (file: (
        Self,
        PathBuf,
    ))
        ensures
            file.0@ == (FileMetaView {
                filename: name@,
                mime: guessed_mime(name@),
                dimensions,
            }),
            file.1 == path,
    {
        let mime = guess_mime(name.as_str());
        (FileMeta::new(name, mime, dimensions), path)
    }
}

} // verus!
