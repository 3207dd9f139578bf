//! Posts: how a creator's directory is split into them.

pub mod coverage;
pub mod date;
pub mod descent;
pub mod draft;
pub mod file;
pub mod naming;
pub mod sync;
pub mod transfer;

use crate::text::{hidden, is_hidden};
use crate::tree::{Entry, EntryKind};
use date::PostDate;
use draft::{build_post, file_sources, group_post, pairs_view, Post, PostView};
use descent::{
    entry_file, files_view, listed_files, read_dir_files, subdirectory_files, ArchiveError,
    FileView,
};
use file::{FanboxDLFileMeta, FileMeta};
use naming::{classify_directory, date_prefix, directory_kind, DirectoryKind, DirectoryKindView};
use std::path::PathBuf;
use vstd::prelude::*;

pub use sync::sync_posts;

verus! {

/// The files of a creator that become one post.
#[derive(Debug, PartialEq, Eq)]
pub enum FanboxDLPost {
    /// The loose files directly under the creator.
    Ungroup(Vec<(FileMeta, PathBuf)>),
    /// The files of the plan with this price.
    GroupByPlan(u32, Vec<(FileMeta, PathBuf)>),
    /// The files of the post published on this day under this title.
    GroupByPost(PostDate, String, Vec<(FileMeta, PathBuf)>),
}

/// What makes a group: its origin among the creator's entries.
pub enum GroupKind {
    Ungroup,
    Plan(u32),
    Post(PostDate, Seq<char>),
}

/// The mathematical content of a [`FanboxDLPost`].
pub struct GroupView {
    pub kind: GroupKind,
    pub files: Seq<FileView>,
}

impl View for FanboxDLPost {
    type V = GroupView;

    open spec fn view(&self) -> GroupView {
        match *self {
            FanboxDLPost::Ungroup(files) => GroupView {
                kind: GroupKind::Ungroup,
                files: files_view(files@),
            },
            FanboxDLPost::GroupByPlan(price, files) => GroupView {
                kind: GroupKind::Plan(price),
                files: files_view(files@),
            },
            FanboxDLPost::GroupByPost(date, title, files) => GroupView {
                kind: GroupKind::Post(date, title@),
                files: files_view(files@),
            },
        }
    }
}

/// The content of a list of groups.
pub open spec fn groups_view(groups: Seq<FanboxDLPost>) -> Seq<GroupView> {
    groups.map_values(|group: FanboxDLPost| group@)
}

/// The group that one entry of a creator's directory gives rise to.
///
/// A hidden entry gives none. A visible entry of unknown type is a failure.
/// A directory is judged by its name before it is read: a malformed plan
/// name is a failure, an ignored name gives no group. The files of a plan or
/// post directory are those within the depth limit; a directory that holds
/// none gives no group.
pub open spec fn entry_group(entry: Entry) -> Result<Option<GroupView>, ArchiveError> {
    if !entry.visible() {
        Ok(None)
    } else if entry.kind is Unknown {
        Err(ArchiveError::UnknownEntryType(entry.path))
    } else if !entry.is_directory() {
        Ok(None)
    } else {
        match directory_kind(entry.name@, date_prefix(entry.name@)) {
            Err(_) => Err(ArchiveError::MalformedPlanTier(entry.path)),
            Ok(DirectoryKindView::Ignored) => Ok(None),
            Ok(kind) => match subdirectory_files(entry, 1) {
                Err(error) => Err(error),
                Ok(files) => if files.len() == 0 {
                    Ok(None)
                } else {
                    Ok(
                        Some(
                            GroupView {
                                kind: match kind {
                                    DirectoryKindView::Plan(price) => GroupKind::Plan(price),
                                    DirectoryKindView::Post(date, title) => GroupKind::Post(
                                        date,
                                        title,
                                    ),
                                    DirectoryKindView::Ignored => GroupKind::Ungroup,
                                },
                                files,
                            },
                        ),
                    )
                },
            },
        }
    }
}

/// The groups of the directories among `entries`, in order, or the first
/// failure met on the way.
pub open spec fn directory_groups(entries: Seq<Entry>) -> Result<Seq<GroupView>, ArchiveError>
    decreases entries.len(),
{
    if entries.len() == 0 {
        Ok(Seq::empty())
    } else {
        match directory_groups(entries.drop_last()) {
            Err(error) => Err(error),
            Ok(before) => match entry_group(entries.last()) {
                Err(error) => Err(error),
                Ok(None) => Ok(before),
                Ok(Some(group)) => Ok(before.push(group)),
            },
        }
    }
}

/// The groups of a creator whose directory holds `entries`: one for each
/// plan or post directory that holds a file, in the order of the entries,
/// and after them one for the loose files if there are any.
pub open spec fn archive_groups(entries: Seq<Entry>) -> Result<Seq<GroupView>, ArchiveError> {
    match directory_groups(entries) {
        Err(error) => Err(error),
        Ok(groups) => if listed_files(entries).len() == 0 {
            Ok(groups)
        } else {
            Ok(groups.push(GroupView { kind: GroupKind::Ungroup, files: listed_files(entries) }))
        },
    }
}

/// A failure met among the first entries stays the failure when more entries
/// follow.
pub proof fn lemma_group_failure_of_prefix(entries: Seq<Entry>, k: int)
    requires
        0 <= k <= entries.len(),
        directory_groups(entries.take(k)) is Err,
    ensures
        directory_groups(entries) == directory_groups(entries.take(k)),
    decreases entries.len(),
{
    if k == entries.len() {
        assert(entries.take(k) =~= entries);
    } else {
        assert(entries.drop_last().take(k) =~= entries.take(k));
        lemma_group_failure_of_prefix(entries.drop_last(), k);
    }
}

/// Splits the entries of a creator's directory into groups, as
/// [`archive_groups`] describes. No group is empty.
pub fn read_fanbox_dl_archive(entries: &Vec<Entry>) -> (r: Result<Vec<FanboxDLPost>, ArchiveError>)
    ensures
        match r {
            Ok(groups) => archive_groups(entries@) == Ok::<_, ArchiveError>(groups_view(groups@)),
            Err(error) => archive_groups(entries@) == Err::<Seq<GroupView>, _>(error),
        },
        r matches Ok(groups) ==> forall|i: int|
            0 <= i < groups.len() ==> (#[trigger] groups[i])@.files.len() > 0,
{
    let mut posts: Vec<FanboxDLPost> = Vec::new();
    let mut ungroup: Vec<(FileMeta, PathBuf)> = Vec::new();
    let mut i: usize = 0;
    assert(groups_view(posts@) =~= Seq::empty());
    while i < entries.len()
        invariant
            i <= entries.len(),
            directory_groups(entries@.take(i as int)) == Ok::<_, ArchiveError>(groups_view(posts@)),
            files_view(ungroup@) == listed_files(entries@.take(i as int)),
            forall|k: int| 0 <= k < posts.len() ==> (#[trigger] posts[k])@.files.len() > 0,
        decreases entries.len() - i,
    {
        let entry = &entries[i];
        assert(entries@.take(i + 1).drop_last() =~= entries@.take(i as int));
        assert(entries@.take(i + 1).last() == entries@[i as int]);
        let ghost before = posts@;
        if !is_hidden(entry.name.as_str()) {
            match &entry.kind {
                EntryKind::Unknown => {
                    proof {
                        lemma_group_failure_of_prefix(entries@, i + 1);
                    }
                    return Err(ArchiveError::UnknownEntryType(entry.path.clone()));
                },
                EntryKind::File { dimensions } => {
                    let file = FileMeta::from_path(
                        entry.name.clone(),
                        entry.path.clone(),
                        *dimensions,
                    );
                    let ghost loose = ungroup@;
                    ungroup.push(file);
                    assert(files_view(ungroup@) =~= files_view(loose).push(entry_file(*entry)));
                },
                EntryKind::Other => {},
                _ => {
                    let kind = match classify_directory(entry.name.as_str()) {
                        Ok(kind) => kind,
                        Err(_) => {
                            proof {
                                lemma_group_failure_of_prefix(entries@, i + 1);
                            }
                            return Err(ArchiveError::MalformedPlanTier(entry.path.clone()));
                        },
                    };
                    if let DirectoryKind::Ignored = kind {
                    } else {
                        let files = match &entry.kind {
                            EntryKind::Directory { entries: inner } => {
                                match read_dir_files(inner, 1) {
                                    Ok(files) => files,
                                    Err(error) => {
                                        proof {
                                            lemma_group_failure_of_prefix(entries@, i + 1);
                                        }
                                        return Err(error);
                                    },
                                }
                            },
                            _ => {
                                proof {
                                    lemma_group_failure_of_prefix(entries@, i + 1);
                                }
                                return Err(ArchiveError::UnreadableDirectory(entry.path.clone()));
                            },
                        };
                        if files.len() > 0 {
                            let group = match kind {
                                DirectoryKind::Plan(price) => FanboxDLPost::GroupByPlan(price, files),
                                DirectoryKind::Post(date, title) => FanboxDLPost::GroupByPost(
                                    date,
                                    title,
                                    files,
                                ),
                                DirectoryKind::Ignored => FanboxDLPost::Ungroup(files),
                            };
                            posts.push(group);
                            assert(groups_view(posts@) =~= groups_view(before).push(
                                entry_group(*entry)->Ok_0->Some_0,
                            ));
                        }
                    }
                },
            }
        }
        i = i + 1;
    }
    assert(entries@.take(i as int) =~= entries@);
    if ungroup.len() > 0 {
        let ghost before = posts@;
        posts.push(FanboxDLPost::Ungroup(ungroup));
        assert(groups_view(posts@) =~= groups_view(before).push(
            GroupView { kind: GroupKind::Ungroup, files: listed_files(entries@) },
        ));
    }
    Ok(posts)
}

/// A post together with the sources of its files.
pub open spec fn draft_of(group: GroupView, path: Seq<char>, platform: u32, author: u32) -> (
    PostView,
    Seq<(Seq<char>, PathBuf)>,
) {
    (group_post(group, path, platform, author), file_sources(group.files))
}

/// The content of a list of posts with the sources of their files.
pub open spec fn drafts_view(drafts: Seq<(Post, Vec<(String, PathBuf)>)>) -> Seq<
    (PostView, Seq<(Seq<char>, PathBuf)>),
> {
    drafts.map_values(|draft: (Post, Vec<(String, PathBuf)>)| (draft.0@, pairs_view(draft.1@)))
}

/// The posts of the creator `author` on `platform` whose directory, written
/// `path`, holds `entries`: one post for each group of
/// [`read_fanbox_dl_archive`], in the same order, each with the sources of
/// its files, one for every content entry and at the same place. No post is
/// without content, and no file of a group is left out.
pub fn get_posts(path: &str, platform: u32, author: u32, entries: &Vec<Entry>) -> (r: Result<
    Vec<(Post, Vec<(String, PathBuf)>)>,
    ArchiveError,
>)
    ensures
        match r {
            Ok(posts) => archive_groups(entries@) matches Ok(groups) && drafts_view(posts@)
                == groups.map_values(|group: GroupView| draft_of(group, path@, platform, author)),
            Err(error) => archive_groups(entries@) == Err::<Seq<GroupView>, _>(error),
        },
        r matches Ok(posts) ==> forall|i: int|
            0 <= i < posts.len() ==> (#[trigger] posts[i]).0.content.len() > 0
                && posts[i].1.len() == posts[i].0.content.len(),
{
    let groups = match read_fanbox_dl_archive(entries) {
        Ok(groups) => groups,
        Err(error) => {
            return Err(error);
        },
    };
    let ghost all = groups_view(groups@);
    let mut posts: Vec<(Post, Vec<(String, PathBuf)>)> = Vec::new();
    assert(drafts_view(posts@) =~= Seq::empty());
    for group in it: groups
        invariant
            all == groups_view(it.seq()),
            forall|k: int| 0 <= k < all.len() ==> (#[trigger] all[k]).files.len() > 0,
            drafts_view(posts@) == all.take(it.index() as int).map_values(
                |group: GroupView| draft_of(group, path@, platform, author),
            ),
            forall|i: int|
                0 <= i < posts.len() ==> (#[trigger] posts[i]).0.content.len() > 0
                    && posts[i].1.len() == posts[i].0.content.len(),
    {
        let ghost before = drafts_view(posts@);
        let ghost index = it.index() as int;
        assert(all[index] == group@);
        let draft = build_post(group, path, platform, author);
        assert(draft.0@.content.len() == all[index].files.len());
        if draft.0.content.len() > 0 {
            posts.push(draft);
        }
        assert(drafts_view(posts@) =~= before.push(
            draft_of(all[index], path@, platform, author),
        ));
        assert(all.take(index + 1).map_values(
            |group: GroupView| draft_of(group, path@, platform, author),
        ) =~= before.push(draft_of(all[index], path@, platform, author)));
    }
    assert(all.take(all.len() as int) =~= all);
    Ok(posts)
}

/// The directory `name` is read when it would lie at `level`, the
/// directories directly under a creator being at level 1: it is not hidden,
/// it lies within the depth limit, and directly under the creator its name
/// is that of a plan or a post.
pub open spec fn listed(name: Seq<char>, level: nat) -> bool {
    &&& !hidden(name)
    &&& 1 <= level <= descent::MAX_DEPTH
    &&& level == 1 ==> (directory_kind(name, date_prefix(name)) matches Ok(kind) && !(
    kind is Ignored))
}

/// Whether the entries of the directory `name` are wanted when it would lie
/// at `level`. A caller that reads the tree need not list any other
/// directory: what such a directory holds changes no group.
pub fn wants_listing(name: &str, level: usize) -> (wanted: bool)
    ensures
        wanted == listed(name@, level as nat),
{
    if is_hidden(name) || level < 1 || level > descent::MAX_DEPTH {
        false
    } else if level == 1 {
        match classify_directory(name) {
            Ok(DirectoryKind::Ignored) => false,
            Ok(_) => true,
            Err(_) => false,
        }
    } else {
        true
    }
}

/// What a directory holds that is not listed changes nothing: directly
/// under the creator it gives the same group, or the same failure, whatever
/// its entries are and whether or not it could be read; further down it
/// gives no file.
pub proof fn lemma_unlisted_directory_is_not_read(entry: Entry, level: nat, other: Entry)
    requires
        entry.is_directory(),
        other.is_directory(),
        other.name == entry.name,
        other.path == entry.path,
        level >= 1,
        !listed(entry.name@, level),
    ensures
        level == 1 ==> entry_group(other) == entry_group(entry),
        level >= 2 ==> subdirectory_files(entry, level) == Ok::<Seq<FileView>, ArchiveError>(
            Seq::empty(),
        ),
{
}

} // verus!
