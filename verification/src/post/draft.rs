//! The post that a group of files becomes, and the sources of its files.

use super::date::PostDate;
use super::descent::{file_view, files_view, FileView};
use super::file::{FileMeta, FileMetaView};
use super::{FanboxDLPost, GroupKind, GroupView};
use crate::text::{decimal, decimal_text, join};
use std::path::PathBuf;
use vstd::prelude::*;
use vstd::string::*;

verus! {

/// A post as it is put to the archive store.
#[derive(Debug, PartialEq, Eq)]
pub struct Post {
    /// The author that the post is linked to.
    pub author: u32,
    /// The platform that the post came from.
    pub platform: u32,
    /// The key by which the store recognises the post on a later run.
    pub source: String,
    pub title: String,
    /// Always holds the provenance tag.
    pub tags: Vec<String>,
    /// Present for a dated post only.
    pub published: Option<PostDate>,
    /// Present for a dated post only.
    pub updated: Option<PostDate>,
    /// The files of the post, in order.
    pub content: Vec<FileMeta>,
}

/// The mathematical content of a [`Post`].
pub struct PostView {
    pub author: u32,
    pub platform: u32,
    pub source: Seq<char>,
    pub title: Seq<char>,
    pub tags: Seq<Seq<char>>,
    pub published: Option<PostDate>,
    pub updated: Option<PostDate>,
    pub content: Seq<FileMetaView>,
}

impl View for Post {
    type V = PostView;

    open spec fn view(&self) -> PostView {
        PostView {
            author: self.author,
            platform: self.platform,
            source: self.source@,
            title: self.title@,
            tags: self.tags@.map_values(|tag: String| tag@),
            published: self.published,
            updated: self.updated,
            content: self.content@.map_values(|meta: FileMeta| meta@),
        }
    }
}

/// The tag that marks every post as taken from a downloaded tree.
pub open spec fn provenance_tag() -> Seq<char> {
    "fanbox-dl"@
}

/// The metadata part of a file reference.
pub open spec fn meta_of(file: FileView) -> FileMetaView {
    FileMetaView { filename: file.filename, mime: file.mime, dimensions: file.dimensions }
}

/// The key under which the store keeps the post of a group of the creator
/// whose directory is `path`.
pub open spec fn group_source(kind: GroupKind, path: Seq<char>) -> Seq<char> {
    match kind {
        GroupKind::Ungroup => path,
        GroupKind::Plan(price) => path + " - "@ + decimal(price as nat) + "yen"@,
        GroupKind::Post(_, title) => path + " - "@ + title,
    }
}

/// The title of the post of a group. Every plan bears the same title, a
/// fixed text in which the braces stand for themselves.
pub open spec fn group_title(kind: GroupKind) -> Seq<char> {
    match kind {
        GroupKind::Ungroup => "Fanbox archive"@,
        GroupKind::Plan(_) => "{}yen fanbox archive"@,
        GroupKind::Post(_, title) => title,
    }
}

/// The day of a dated group.
pub open spec fn group_date(kind: GroupKind) -> Option<PostDate> {
    match kind {
        GroupKind::Post(date, _) => Some(date),
        _ => None,
    }
}

/// The post that a group becomes.
pub open spec fn group_post(group: GroupView, path: Seq<char>, platform: u32, author: u32) -> PostView {
    PostView {
        author,
        platform,
        source: group_source(group.kind, path),
        title: group_title(group.kind),
        tags: seq![provenance_tag()],
        published: group_date(group.kind),
        updated: group_date(group.kind),
        content: group.files.map_values(|file: FileView| meta_of(file)),
    }
}

/// The content of a list of pairs of file name and source path.
pub open spec fn pairs_view(pairs: Seq<(String, PathBuf)>) -> Seq<(Seq<char>, PathBuf)> {
    pairs.map_values(|pair: (String, PathBuf)| (pair.0@, pair.1))
}

/// The sources of `files`: for each file, in order, its name and the path
/// it is read from. Files that bear one name keep each their own source.
pub open spec fn file_sources(files: Seq<FileView>) -> Seq<(Seq<char>, PathBuf)> {
    files.map_values(|file: FileView| (file.filename, file.path))
}

/// The metadata of `files`, in order.
pub fn to_file_metas(files: &Vec<(FileMeta, PathBuf)>) -> (metas: Vec<FileMeta>)
    ensures
        metas@.map_values(|meta: FileMeta| meta@) == files_view(files@).map_values(
            |file: FileView| meta_of(file),
        ),
{
    let mut metas: Vec<FileMeta> = Vec::new();
    let mut i: usize = 0;
    while i < files.len()
        invariant
            i <= files.len(),
            metas@.len() == i,
            forall|k: int| 0 <= k < i ==> (#[trigger] metas@[k])@ == meta_of(file_view(files@[k])),
        decreases files.len() - i,
    {
        metas.push(files[i].0.clone());
        i = i + 1;
    }
    assert(metas@.map_values(|meta: FileMeta| meta@) =~= files_view(files@).map_values(
        |file: FileView| meta_of(file),
    ));
    metas
}

/// The sources of `files`: one pair of name and source path per file, in
/// the order of the files.
pub fn to_file_sources(files: Vec<(FileMeta, PathBuf)>) -> (sources: Vec<(String, PathBuf)>)
    ensures
        pairs_view(sources@) == file_sources(files_view(files@)),
        sources.len() == files.len(),
{
    let ghost all = files_view(files@);
    let mut sources: Vec<(String, PathBuf)> = Vec::new();
    for file in it: files
        invariant
            all == files_view(it.seq()),
            sources.len() == it.index(),
            forall|k: int|
                0 <= k < sources.len() ==> (#[trigger] sources[k]).0@ == all[k].filename
                    && sources[k].1 == all[k].path,
    {
        let ghost index = it.index() as int;
        assert(all[index] == file_view(file));
        let (meta, path) = file;
        sources.push((meta.filename, path));
    }
    assert(pairs_view(sources@) =~= file_sources(all));
    sources
}

/// Turns a group of the creator whose directory is `path` into a post for
/// `author` on `platform`, together with the sources of its files: the
/// source at each place belongs to the content at the same place.
pub fn build_post(group: FanboxDLPost, path: &str, platform: u32, author: u32) -> (draft: (
    Post,
    Vec<(String, PathBuf)>,
))
    ensures
        draft.0@ == group_post(group@, path@, platform, author),
        pairs_view(draft.1@) == file_sources(group@.files),
        draft.1.len() == draft.0.content.len(),
{
    let ghost kind = group@.kind;
    let mut tags: Vec<String> = Vec::new();
    tags.push(String::from_str("fanbox-dl"));
    assert(tags@.map_values(|tag: String| tag@) =~= seq![provenance_tag()]);
    let (source, title, date, files) = match group {
        FanboxDLPost::Ungroup(files) => (
            String::from_str(path),
            String::from_str("Fanbox archive"),
            None,
            files,
        ),
        FanboxDLPost::GroupByPlan(price, files) => {
            let mut source = join(path, " - ");
            source.append(decimal_text(price).as_str());
            source.append("yen");
            (source, String::from_str("{}yen fanbox archive"), None, files)
        },
        FanboxDLPost::GroupByPost(date, name, files) => {
            let mut source = join(path, " - ");
            source.append(name.as_str());
            (source, name, Some(date), files)
        },
    };
    let content = to_file_metas(&files);
    assert(content@.len() == content@.map_values(|meta: FileMeta| meta@).len());
    let sources = to_file_sources(files);
    (
        Post { author, platform, source, title, tags, published: date, updated: date, content },
        sources,
    )
}

} // verus!
