//! Creators: which of them a run takes, how they are shown, and how their
//! authors are found or made in the archive store.

use crate::config::{accepts, Config};
use crate::post::descent::{first_untyped, lemma_first_untyped_of_prefix, ArchiveError};
use crate::text::{
    is_hidden, is_text_le, join, lemma_bytes_le_total, lemma_bytes_le_transitive, text_le,
};
use crate::tree::{Entry, EntryKind};
use std::path::PathBuf;
use vstd::prelude::*;
use vstd::string::*;
use vstd::utf8::encode_utf8;

verus! {

/// The creators found under the input directory.
#[derive(Debug)]
pub struct Discovery {
    /// The creators that the run takes, each with its directory, in the
    /// order in which they were read.
    pub creators: Vec<(String, PathBuf)>,
    /// How many creators were found, taken or not.
    pub total: usize,
}

impl Discovery {
    /// How many creators the run takes.
    pub fn included(&self) -> (n: usize)
        ensures
            n == self.creators.len(),
    {
        self.creators.len()
    }

    /// How many creators the run leaves out.
    pub fn excluded(&self) -> (n: usize)
        ensures
            n == if self.creators.len() <= self.total {
                self.total - self.creators.len()
            } else {
                0
            },
    {
        if self.creators.len() <= self.total {
            self.total - self.creators.len()
        } else {
            0
        }
    }
}

/// The content of a list of creators.
pub open spec fn creators_view(creators: Seq<(String, PathBuf)>) -> Seq<(Seq<char>, PathBuf)> {
    creators.map_values(|creator: (String, PathBuf)| (creator.0@, creator.1))
}

/// The visible directories among `entries`, in order: each is a creator.
pub open spec fn found_creators(entries: Seq<Entry>) -> Seq<(Seq<char>, PathBuf)>
    decreases entries.len(),
{
    if entries.len() == 0 {
        Seq::empty()
    } else {
        let before = found_creators(entries.drop_last());
        let entry = entries.last();
        if entry.visible() && entry.is_directory() {
            before.push((entry.name@, entry.path))
        } else {
            before
        }
    }
}

/// Those of `creators` that the lists let through, in order.
pub open spec fn taken_creators(
    creators: Seq<(Seq<char>, PathBuf)>,
    whitelist: Seq<Seq<char>>,
    blacklist: Seq<Seq<char>>,
) -> Seq<(Seq<char>, PathBuf)>
    decreases creators.len(),
{
    if creators.len() == 0 {
        Seq::empty()
    } else {
        let before = taken_creators(creators.drop_last(), whitelist, blacklist);
        if accepts(whitelist, blacklist, creators.last().0) {
            before.push(creators.last())
        } else {
            before
        }
    }
}

/// Filtering never adds a creator.
pub proof fn lemma_taken_is_no_longer(
    creators: Seq<(Seq<char>, PathBuf)>,
    whitelist: Seq<Seq<char>>,
    blacklist: Seq<Seq<char>>,
)
    ensures
        taken_creators(creators, whitelist, blacklist).len() <= creators.len(),
    decreases creators.len(),
{
    if creators.len() > 0 {
        lemma_taken_is_no_longer(creators.drop_last(), whitelist, blacklist);
    }
}

/// Finds the creators among the entries of the input directory and keeps
/// those that the configuration takes.
///
/// Every visible directory is a creator; hidden entries and entries that are
/// no directories are passed over. A visible entry whose type could not be
/// determined fails the discovery.
pub fn get_creators(config: &Config, entries: &Vec<Entry>) -> (r: Result<Discovery, ArchiveError>)
    ensures
        match r {
            Ok(found) => {
                &&& first_untyped(entries@) is None
                &&& creators_view(found.creators@) == taken_creators(
                    found_creators(entries@),
                    config@.whitelist,
                    config@.blacklist,
                )
                &&& found.total == found_creators(entries@).len()
                &&& found.creators.len() <= found.total
            },
            Err(error) => first_untyped(entries@) matches Some(path) && error
                == ArchiveError::UnknownEntryType(path),
        },
{
    let mut creators: Vec<(String, PathBuf)> = Vec::new();
    let mut i: usize = 0;
    assert(creators_view(creators@) =~= Seq::empty());
    while i < entries.len()
        invariant
            i <= entries.len(),
            first_untyped(entries@.take(i as int)) is None,
            creators_view(creators@) == found_creators(entries@.take(i as int)),
            creators.len() <= i,
        decreases entries.len() - i,
    {
        let entry = &entries[i];
        assert(entries@.take(i + 1).drop_last() =~= entries@.take(i as int));
        assert(entries@.take(i + 1).last() == entries@[i as int]);
        if !is_hidden(entry.name.as_str()) {
            match &entry.kind {
                EntryKind::Unknown => {
                    proof {
                        lemma_first_untyped_of_prefix(entries@, i + 1);
                    }
                    return Err(ArchiveError::UnknownEntryType(entry.path.clone()));
                },
                EntryKind::Directory { .. } | EntryKind::Unreadable => {
                    let ghost before = creators_view(creators@);
                    creators.push((entry.name.clone(), entry.path.clone()));
                    assert(creators_view(creators@) =~= before.push((entry.name@, entry.path)));
                },
                _ => {},
            }
        }
        i = i + 1;
    }
    assert(entries@.take(i as int) =~= entries@);
    let total = creators.len();
    let ghost found = creators_view(creators@);
    let mut taken: Vec<(String, PathBuf)> = Vec::new();
    assert(creators_view(taken@) =~= Seq::empty());
    for creator in it: creators
        invariant
            found == creators_view(it.seq()),
            creators_view(taken@) == taken_creators(
                found.take(it.index() as int),
                config@.whitelist,
                config@.blacklist,
            ),
    {
        let ghost index = it.index() as int;
        assert(found.take(index + 1).drop_last() =~= found.take(index));
        assert(found.take(index + 1).last() == found[index]);
        assert(found[index] == (creator.0@, creator.1));
        if config.filter_creator(&creator.0) {
            let ghost before = creators_view(taken@);
            taken.push(creator);
            assert(creators_view(taken@) =~= before.push(found[index]));
        }
    }
    assert(found.take(found.len() as int) =~= found);
    proof {
        lemma_taken_is_no_longer(found, config@.whitelist, config@.blacklist);
    }
    Ok(Discovery { creators: taken, total })
}

/// The names in `names` stand in the byte order of strings.
pub open spec fn ordered(names: Seq<Seq<char>>) -> bool {
    forall|i: int, j: int| 0 <= i < j < names.len() ==> text_le(names[i], names[j])
}

/// The names of `creators`, in order.
pub open spec fn creator_names(creators: Seq<(String, PathBuf)>) -> Seq<Seq<char>> {
    creators.map_values(|creator: (String, PathBuf)| creator.0@)
}

/// The content of a list of strings.
pub open spec fn texts_view(texts: Seq<String>) -> Seq<Seq<char>> {
    texts.map_values(|text: String| text@)
}

/// The names of `creators` in the byte order of strings.
pub fn sorted_names(creators: &[(String, PathBuf)]) -> (names: Vec<String>)
    ensures
        ordered(texts_view(names@)),
        texts_view(names@).to_multiset() == creator_names(creators@).to_multiset(),
{
    let ghost all = creator_names(creators@);
    let mut names: Vec<String> = Vec::new();
    assert(texts_view(names@) =~= Seq::empty());
    assert(all.take(0) =~= Seq::empty());
    let mut i: usize = 0;
    while i < creators.len()
        invariant
            i <= creators.len(),
            all == creator_names(creators@),
            ordered(texts_view(names@)),
            texts_view(names@).to_multiset() == all.take(i as int).to_multiset(),
        decreases creators.len() - i,
    {
        let name = creators[i].0.clone();
        let ghost before = texts_view(names@);
        let mut p: usize = 0;
        while p < names.len() && is_text_le(names[p].as_str(), name.as_str())
            invariant
                p <= names.len(),
                before == texts_view(names@),
                forall|k: int| 0 <= k < p ==> text_le(before[k], name@),
            decreases names.len() - p,
        {
            p = p + 1;
        }
        proof {
            assert forall|k: int| p <= k < before.len() implies text_le(name@, before[k]) by {
                lemma_bytes_le_total(encode_utf8(before[p as int]), encode_utf8(name@));
                if k > p {
                    assert(text_le(before[p as int], before[k]));
                    lemma_bytes_le_transitive(
                        encode_utf8(name@),
                        encode_utf8(before[p as int]),
                        encode_utf8(before[k]),
                    );
                }
            }
            vstd::seq_lib::to_multiset_insert(before, p as int, name@);
            vstd::seq_lib::to_multiset_build(all.take(i as int), all[i as int]);
            assert(all.take(i + 1) =~= all.take(i as int).push(all[i as int]));
        }
        names.insert(p, name);
        let ghost after = texts_view(names@);
        assert(after =~= before.insert(p as int, name@));
        assert forall|a: int, b: int| 0 <= a < b < after.len() implies text_le(
            after[a],
            after[b],
        ) by {
            if b < p {
                assert(after[a] == before[a] && after[b] == before[b]);
            } else if b == p {
                assert(after[a] == before[a]);
            } else if a < p {
                assert(after[a] == before[a] && after[b] == before[b - 1]);
                if b - 1 == a {
                }
                lemma_bytes_le_transitive(
                    encode_utf8(before[a]),
                    encode_utf8(name@),
                    encode_utf8(before[b - 1]),
                );
            } else if a == p {
                assert(after[b] == before[b - 1]);
            } else {
                assert(after[a] == before[a - 1] && after[b] == before[b - 1]);
            }
        }
        i = i + 1;
    }
    assert(all.take(i as int) =~= all);
    names
}

/// The first line of the list of creators.
pub open spec fn list_header() -> Seq<char> {
    "== Creator ============="@
}

/// The line that closes the list of creators.
pub open spec fn list_footer() -> Seq<char> {
    "========================"@
}

/// The names that the lines of a list show: what stands behind the blank
/// that opens each line between the header and the footer.
pub open spec fn shown_names(lines: Seq<Seq<char>>) -> Seq<Seq<char>> {
    Seq::new((lines.len() - 3) as nat, |k: int| lines[k + 1].skip(1))
}

/// The lines that show `creators`: a header, one line per creator that
/// holds a blank and the creator's name, the names in the byte order of
/// strings, then a footer and an empty line.
pub fn display_creators(creators: &[(String, PathBuf)]) -> (lines: Vec<String>)
    ensures
        lines.len() == creators.len() + 3,
        lines[0]@ == list_header(),
        lines[creators.len() + 1]@ == list_footer(),
        lines[creators.len() + 2]@.len() == 0,
        forall|k: int|
            1 <= k <= creators.len() ==> (#[trigger] texts_view(lines@)[k]).len() > 0
                && texts_view(lines@)[k][0] == ' ',
        ordered(shown_names(texts_view(lines@))),
        shown_names(texts_view(lines@)).to_multiset() == creator_names(creators@).to_multiset(),
{
    let names = sorted_names(creators);
    let ghost sorted = texts_view(names@);
    proof {
        vstd::seq_lib::to_multiset_len(sorted);
        vstd::seq_lib::to_multiset_len(creator_names(creators@));
        reveal_strlit(" ");
        reveal_strlit("");
    }
    let mut lines: Vec<String> = Vec::new();
    lines.push(String::from_str("== Creator ============="));
    let mut i: usize = 0;
    while i < names.len()
        invariant
            i <= names.len(),
            names.len() == creators.len(),
            sorted == texts_view(names@),
            lines.len() == i + 1,
            lines[0]@ == list_header(),
            forall|k: int| 0 <= k < i ==> (#[trigger] lines[k + 1])@ == " "@ + sorted[k],
        decreases names.len() - i,
    {
        lines.push(join(" ", names[i].as_str()));
        i = i + 1;
    }
    lines.push(String::from_str("========================"));
    lines.push(String::from_str(""));
    proof {
        let shown = shown_names(texts_view(lines@));
        assert forall|k: int| 0 <= k < sorted.len() implies shown[k] == sorted[k] by {
            assert(lines[k + 1]@ == " "@ + sorted[k]);
            assert((" "@ + sorted[k]).skip(1) =~= sorted[k]);
        }
        assert(shown =~= sorted);
        assert forall|k: int| 1 <= k <= creators.len() implies (#[trigger] texts_view(
            lines@,
        )[k]).len() > 0 && texts_view(lines@)[k][0] == ' ' by {
            assert(lines[(k - 1) + 1]@ == " "@ + sorted[k - 1]);
        }
    }
    lines
}

/// What is asked of the store to make the author of a creator.
#[derive(Debug, PartialEq, Eq)]
pub struct AuthorRequest {
    /// The author's name: the creator's identifier.
    pub name: String,
    /// The platform of the alias.
    pub platform: u32,
    /// The alias under which the author is found again: the creator's
    /// identifier.
    pub alias: String,
    /// The creator's public page.
    pub link: String,
}

/// The mathematical content of an [`AuthorRequest`].
pub struct AuthorRequestView {
    pub name: Seq<char>,
    pub platform: u32,
    pub alias: Seq<char>,
    pub link: Seq<char>,
}

impl View for AuthorRequest {
    type V = AuthorRequestView;

    open spec fn view(&self) -> AuthorRequestView {
        AuthorRequestView {
            name: self.name@,
            platform: self.platform,
            alias: self.alias@,
            link: self.link@,
        }
    }
}

/// The address of a creator's public page.
pub open spec fn profile_link(creator: Seq<char>) -> Seq<char> {
    "https://"@ + creator + ".fanbox.cc/"@
}

/// The request that makes the author of `creator` on `platform`.
pub open spec fn request_for(creator: Seq<char>, platform: u32) -> AuthorRequestView {
    AuthorRequestView { name: creator, platform, alias: creator, link: profile_link(creator) }
}

/// The request that makes the author of `creator` on `platform`.
pub fn author_request(creator: &str, platform: u32) -> (request: AuthorRequest)
    ensures
        request@ == request_for(creator@, platform),
{
    let mut link = join("https://", creator);
    link.append(".fanbox.cc/");
    AuthorRequest {
        name: String::from_str(creator),
        platform,
        alias: String::from_str(creator),
        link,
    }
}

/// How far the synchronisation of the creators has come.
#[derive(Debug, Clone, Copy, PartialEq, Eq, Structural)]
pub enum CreatorPhase {
    /// Nothing has been asked of the store yet.
    Ready,
    /// The store is asked whether it knows the next creator.
    Finding,
    /// The store is asked to make the author of the next creator.
    Creating,
    /// Every creator has an author; the transaction is being committed.
    Committing,
    /// The transaction is committed.
    Finished,
    /// The store failed; no author of this run is kept.
    Aborted,
}

/// What the caller reports.
#[derive(Debug)]
pub enum CreatorEvent {
    /// The transaction is open.
    Start,
    /// The store was asked for the alias: this is the author it knows under
    /// it, if any.
    Found(Option<u32>),
    /// The store made the author that was asked for.
    Created(u32),
    /// The store refused the last request.
    Failed,
    /// The transaction is committed.
    Committed,
}

/// What the caller is to do next.
#[derive(Debug, PartialEq, Eq)]
pub enum CreatorAction {
    /// Ask the store for the author known under this alias.
    Find { alias: String, platform: u32 },
    /// Ask the store to make this author.
    Create(AuthorRequest),
    /// Commit the transaction.
    Commit,
    /// Give the transaction up.
    Abort,
    /// All is done: these are the authors with the directories of their
    /// creators, in the order of the creators.
    Done(Vec<(u32, PathBuf)>),
    /// The event does not fit the phase; nothing has changed.
    Rejected,
}

/// The state of the synchronisation of the creators.
#[derive(Debug)]
pub struct CreatorSync {
    phase: CreatorPhase,
    platform: u32,
    creators: Vec<(String, PathBuf)>,
    authors: Vec<(u32, PathBuf)>,
}

/// The mathematical content of a [`CreatorSync`].
pub struct CreatorSyncView {
    pub phase: CreatorPhase,
    pub platform: u32,
    /// The creators of the run.
    pub creators: Seq<(Seq<char>, PathBuf)>,
    /// The authors of the first creators, as far as they are resolved.
    pub authors: Seq<(u32, PathBuf)>,
}

/// What is decided once the authors stand as `next.authors`: the next
/// creator is looked up, or the transaction is committed after the last.
pub open spec fn asks_next(next: CreatorSyncView, action: CreatorAction) -> bool {
    if next.authors.len() < next.creators.len() {
        &&& next.phase == CreatorPhase::Finding
        &&& action matches CreatorAction::Find { alias, platform }
        &&& alias@ == next.creators[next.authors.len() as int].0
        &&& platform == next.platform
    } else {
        &&& next.phase == CreatorPhase::Committing
        &&& action is Commit
    }
}

/// The state with the creator in turn resolved to `author`.
pub open spec fn resolved(state: CreatorSyncView, author: u32, phase: CreatorPhase) -> CreatorSyncView {
    CreatorSyncView {
        phase,
        authors: state.authors.push((author, state.creators[state.authors.len() as int].1)),
        ..state
    }
}

/// The step that `event` causes in state `state`: the state that follows and
/// the action that is asked for.
///
/// The creators are taken in order. Each is looked up by its alias; an
/// author that the store knows is used as it is, and only where it knows
/// none is one made. After the last creator the transaction is committed,
/// and the authors are handed out once the commit went through. A refusal
/// by the store aborts. Any other event is rejected and changes nothing.
pub open spec fn creator_step(
    state: CreatorSyncView,
    event: CreatorEvent,
    next: CreatorSyncView,
    action: CreatorAction,
) -> bool {
    match (state.phase, event) {
        (CreatorPhase::Ready, CreatorEvent::Start) => {
            &&& next.platform == state.platform
            &&& next.creators == state.creators
            &&& next.authors == state.authors
            &&& asks_next(next, action)
        },
        (CreatorPhase::Finding, CreatorEvent::Found(Some(author))) => {
            &&& next == resolved(state, author, next.phase)
            &&& asks_next(next, action)
        },
        (CreatorPhase::Finding, CreatorEvent::Found(None)) => {
            &&& next == (CreatorSyncView { phase: CreatorPhase::Creating, ..state })
            &&& action matches CreatorAction::Create(request)
            &&& request@ == request_for(
                state.creators[state.authors.len() as int].0,
                state.platform,
            )
        },
        (CreatorPhase::Creating, CreatorEvent::Created(author)) => {
            &&& next == resolved(state, author, next.phase)
            &&& asks_next(next, action)
        },
        (CreatorPhase::Finding, CreatorEvent::Failed)
        | (CreatorPhase::Creating, CreatorEvent::Failed)
        | (CreatorPhase::Committing, CreatorEvent::Failed) => {
            next == (CreatorSyncView { phase: CreatorPhase::Aborted, ..state }) && action is Abort
        },
        (CreatorPhase::Committing, CreatorEvent::Committed) => {
            &&& next == (CreatorSyncView { phase: CreatorPhase::Finished, ..state })
            &&& action matches CreatorAction::Done(authors)
            &&& authors@ == state.authors
        },
        _ => next == state && action is Rejected,
    }
}

impl CreatorSync {
    #[verifier::type_invariant]
    spec fn well_formed(self) -> bool {
        &&& self.authors.len() <= self.creators.len()
        &&& (self.phase is Finding || self.phase is Creating) ==> self.authors.len()
            < self.creators.len()
    }

    /// Phase, platform, creators and authors.
    pub closed spec fn view(&self) -> CreatorSyncView {
        CreatorSyncView {
            phase: self.phase,
            platform: self.platform,
            creators: creators_view(self.creators@),
            authors: self.authors@,
        }
    }

    /// The state before anything is asked of the store.
    pub fn new(creators: Vec<(String, PathBuf)>, platform: u32) -> (state: Self)
        ensures
            state@ == (CreatorSyncView {
                phase: CreatorPhase::Ready,
                platform,
                creators: creators_view(creators@),
                authors: Seq::empty(),
            }),
    {
        CreatorSync { phase: CreatorPhase::Ready, platform, creators, authors: Vec::new() }
    }

    /// The phase that the synchronisation is in.
    pub fn phase(&self) -> (phase: CreatorPhase)
        ensures
            phase == self@.phase,
    {
        self.phase
    }
}

/// Asks for the next creator, or for the commit after the last.
fn ask_next(platform: u32, creators: Vec<(String, PathBuf)>, authors: Vec<(u32, PathBuf)>) -> (r: (
    CreatorSync,
    CreatorAction,
))
    requires
        authors.len() <= creators.len(),
    ensures
        r.0@.platform == platform,
        r.0@.creators == creators_view(creators@),
        r.0@.authors == authors@,
        asks_next(r.0@, r.1),
{
    if authors.len() < creators.len() {
        let alias = creators[authors.len()].0.clone();
        (
            CreatorSync { phase: CreatorPhase::Finding, platform, creators, authors },
            CreatorAction::Find { alias, platform },
        )
    } else {
        (
            CreatorSync { phase: CreatorPhase::Committing, platform, creators, authors },
            CreatorAction::Commit,
        )
    }
}

/// A copy of `authors`.
fn copy_authors(authors: &Vec<(u32, PathBuf)>) -> (copy: Vec<(u32, PathBuf)>)
    ensures
        copy@ == authors@,
{
    let mut copy: Vec<(u32, PathBuf)> = Vec::new();
    let mut i: usize = 0;
    while i < authors.len()
        invariant
            i <= authors.len(),
            copy@ == authors@.take(i as int),
        decreases authors.len() - i,
    {
        copy.push((authors[i].0, authors[i].1.clone()));
        assert(authors@.take(i + 1) =~= authors@.take(i as int).push(authors@[i as int]));
        i = i + 1;
    }
    assert(authors@.take(i as int) =~= authors@);
    copy
}

/// Takes one step of the synchronisation of the creators: from the state
/// and what the caller reports to the state that follows and what the caller
/// is to do next, as [`creator_step`] describes.
pub fn sync_creators(state: CreatorSync, event: CreatorEvent) -> (r: (CreatorSync, CreatorAction))
    ensures
        creator_step(state@, event, r.0@, r.1),
{
    proof {
        use_type_invariant(&state);
    }
    let CreatorSync { phase, platform, creators, mut authors } = state;
    match (phase, event) {
        (CreatorPhase::Ready, CreatorEvent::Start) => ask_next(platform, creators, authors),
        (CreatorPhase::Finding, CreatorEvent::Found(Some(author)))
        | (CreatorPhase::Creating, CreatorEvent::Created(author)) => {
            let path = creators[authors.len()].1.clone();
            authors.push((author, path));
            ask_next(platform, creators, authors)
        },
        (CreatorPhase::Finding, CreatorEvent::Found(None)) => {
            let request = author_request(creators[authors.len()].0.as_str(), platform);
            (
                CreatorSync { phase: CreatorPhase::Creating, platform, creators, authors },
                CreatorAction::Create(request),
            )
        },
        (CreatorPhase::Finding, CreatorEvent::Failed)
        | (CreatorPhase::Creating, CreatorEvent::Failed)
        | (CreatorPhase::Committing, CreatorEvent::Failed) => {
            (
                CreatorSync { phase: CreatorPhase::Aborted, platform, creators, authors },
                CreatorAction::Abort,
            )
        },
        (CreatorPhase::Committing, CreatorEvent::Committed) => {
            let list = copy_authors(&authors);
            (
                CreatorSync { phase: CreatorPhase::Finished, platform, creators, authors },
                CreatorAction::Done(list),
            )
        },
        (phase, _) => (CreatorSync { phase, platform, creators, authors }, CreatorAction::Rejected),
    }
}

} // verus!
