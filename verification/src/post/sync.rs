//! The synchronisation of one creator's posts as a sequence of decisions:
//! the caller does the outside work that each action names and reports what
//! came of it.

use super::transfer::{
    ended, failed_count, first_pending, pending_count, queued, running_count, succeeded_count,
    Job, Materializer, MaterializerView, StateView, Summary, TransferView,
};
use crate::config::TransformMethod;
use std::path::PathBuf;
use vstd::prelude::*;

verus! {

/// How far the synchronisation of a creator's posts has come.
#[derive(Debug, Clone, Copy, PartialEq, Eq, Structural)]
pub enum Phase {
    /// Nothing has been asked of the store yet.
    Ready,
    /// Posts are being put to the store, inside one transaction.
    Syncing,
    /// Every post is in; the transaction is being committed.
    Committing,
    /// The transaction is committed; files are being transferred.
    Transferring,
    /// Every transfer has ended.
    Finished,
    /// The store failed; nothing of this creator is transferred.
    Aborted,
}

/// What the caller reports.
#[derive(Debug)]
pub enum SyncEvent {
    /// The transaction is open.
    Start,
    /// The store took the post that was asked for and names, for each of its
    /// files, the target to write and the source to read.
    Synced(Vec<(PathBuf, PathBuf)>),
    /// The store refused the last request.
    Failed,
    /// The transaction is committed.
    Committed,
    /// The transfer that was handed out has been started.
    Launched,
    /// The running transfer `id` has ended, with this error if it failed.
    Ended { id: usize, error: Option<String> },
}

/// What the caller is to do next.
#[derive(Debug, PartialEq, Eq)]
pub enum SyncAction {
    /// Put the post with this number to the store.
    Sync(usize),
    /// Commit the transaction.
    Commit,
    /// Give the transaction up and skip the creator.
    Abort,
    /// Start this transfer, after making the directory of its target ready
    /// if it is a leading one.
    Transfer(Job),
    /// Wait until a running transfer ends.
    Wait,
    /// Transfers are pending, none is running, and the limit grants no slot:
    /// no progress is possible.
    Stall,
    /// All is done; these are the counts.
    Done(Summary),
    /// The event does not fit the phase; nothing has changed.
    Rejected,
}

/// The state of the synchronisation of one creator's posts.
#[derive(Debug)]
pub struct PostSync {
    phase: Phase,
    posts: usize,
    mappings: Vec<Vec<(PathBuf, PathBuf)>>,
    run: Materializer,
}

/// The mathematical content of a [`PostSync`].
pub struct PostSyncView {
    pub phase: Phase,
    /// How many posts the creator has.
    pub posts: usize,
    /// The files of the posts put to the store so far and not yet queued.
    pub mappings: Seq<Seq<(PathBuf, PathBuf)>>,
    /// The transfers.
    pub run: MaterializerView,
}

/// The content of a list of mappings.
pub open spec fn mappings_view(mappings: Seq<Vec<(PathBuf, PathBuf)>>) -> Seq<
    Seq<(PathBuf, PathBuf)>,
> {
    mappings.map_values(|files: Vec<(PathBuf, PathBuf)>| files@)
}

/// The transfers that the files of several posts become: post after post,
/// the first file of each post leading.
pub open spec fn queued_all(mappings: Seq<Seq<(PathBuf, PathBuf)>>) -> Seq<TransferView>
    decreases mappings.len(),
{
    if mappings.len() == 0 {
        Seq::empty()
    } else {
        queued_all(mappings.drop_last()) + queued(mappings.last())
    }
}

/// What is decided once the transfers stand as `run`: start the first
/// pending transfer if a slot is free; otherwise wait while something runs;
/// otherwise stall if something is pending; otherwise finish.
pub open spec fn proceeds(run: MaterializerView, next: PostSyncView, action: SyncAction) -> bool {
    &&& next.run.limit == run.limit
    &&& next.run.method == run.method
    &&& next.mappings.len() == 0
    &&& if running_count(run.transfers) < run.limit && pending_count(run.transfers) > 0 {
        &&& action matches SyncAction::Transfer(job)
        &&& first_pending(run.transfers, job.id as int)
        &&& job.method == run.method
        &&& job.source == run.transfers[job.id as int].source
        &&& job.target == run.transfers[job.id as int].target
        &&& job.leading == run.transfers[job.id as int].leading
        &&& next.phase == Phase::Transferring
        &&& next.run.transfers == run.transfers.update(
            job.id as int,
            TransferView { state: StateView::Running, ..run.transfers[job.id as int] },
        )
    } else if running_count(run.transfers) > 0 {
        &&& action is Wait
        &&& next.phase == Phase::Transferring
        &&& next.run == run
    } else if pending_count(run.transfers) > 0 {
        &&& action is Stall
        &&& next.phase == Phase::Transferring
        &&& next.run == run
    } else {
        &&& action == SyncAction::Done(
            Summary {
                total: run.transfers.len() as usize,
                success: succeeded_count(run.transfers) as usize,
                failed: failed_count(run.transfers) as usize,
            },
        )
        &&& next.phase == Phase::Finished
        &&& next.run == run
    }
}

/// The step that `event` causes in state `state`: the state that follows and
/// the action that is asked for.
///
/// A started transaction asks for the first post, or for the commit where
/// there is no post. Each post taken by the store asks for the next one, and
/// the last for the commit. A refusal by the store, while posts are put or
/// at the commit, aborts: no file of the creator is queued. After the commit
/// the files of all posts are queued, post after post, and transfers are
/// started as slots allow. A transfer that ends is recorded, whatever its
/// outcome, and the next decision follows. Any other event is rejected and
/// changes nothing.
pub open spec fn sync_step(
    state: PostSyncView,
    event: SyncEvent,
    next: PostSyncView,
    action: SyncAction,
) -> bool {
    match (state.phase, event) {
        (Phase::Ready, SyncEvent::Start) => if state.posts == 0 {
            next == (PostSyncView { phase: Phase::Committing, ..state }) && action is Commit
        } else {
            next == (PostSyncView { phase: Phase::Syncing, ..state }) && action
                == SyncAction::Sync(0)
        },
        (Phase::Syncing, SyncEvent::Synced(files)) => {
            let mappings = state.mappings.push(files@);
            if mappings.len() < state.posts {
                next == (PostSyncView { mappings, ..state }) && action == SyncAction::Sync(
                    mappings.len() as usize,
                )
            } else {
                next == (PostSyncView { phase: Phase::Committing, mappings, ..state })
                    && action is Commit
            }
        },
        (Phase::Syncing, SyncEvent::Failed) | (Phase::Committing, SyncEvent::Failed) => {
            next == (PostSyncView { phase: Phase::Aborted, ..state }) && action is Abort
        },
        (Phase::Committing, SyncEvent::Committed) => proceeds(
            MaterializerView {
                transfers: state.run.transfers + queued_all(state.mappings),
                ..state.run
            },
            next,
            action,
        ) && next.posts == state.posts,
        (Phase::Transferring, SyncEvent::Launched) => proceeds(state.run, next, action)
            && next.posts == state.posts,
        (Phase::Transferring, SyncEvent::Ended { id, error }) => if id < state.run.transfers.len()
            && state.run.transfers[id as int].state is Running {
            proceeds(
                MaterializerView {
                    transfers: state.run.transfers.update(
                        id as int,
                        TransferView { state: ended(error), ..state.run.transfers[id as int] },
                    ),
                    ..state.run
                },
                next,
                action,
            ) && next.posts == state.posts
        } else {
            next == state && action is Rejected
        },
        _ => next == state && action is Rejected,
    }
}

/// A pending transfer in first place shows that something is pending.
pub proof fn lemma_first_pending_counts(transfers: Seq<TransferView>, i: int)
    requires
        0 <= i < transfers.len(),
        transfers[i].state is Pending,
    ensures
        pending_count(transfers) > 0,
    decreases transfers.len(),
{
    if i < transfers.len() - 1 {
        lemma_first_pending_counts(transfers.drop_last(), i);
    }
}

impl PostSync {
    /// Phase, posts, mappings and transfers.
    pub closed spec fn view(&self) -> PostSyncView {
        PostSyncView {
            phase: self.phase,
            posts: self.posts,
            mappings: mappings_view(self.mappings@),
            run: self.run@,
        }
    }

    /// The state before anything is asked of the store, for a creator with
    /// `posts` posts and a run that lets `limit` transfers run at a time and
    /// places every file by `method`.
    pub fn new(posts: usize, limit: usize, method: TransformMethod) -> (state: Self)
        ensures
            state@ == (PostSyncView {
                phase: Phase::Ready,
                posts,
                mappings: Seq::empty(),
                run: MaterializerView { limit, method, transfers: Seq::empty() },
            }),
    {
        let mappings: Vec<Vec<(PathBuf, PathBuf)>> = Vec::new();
        assert(mappings_view(mappings@) =~= Seq::empty());
        PostSync { phase: Phase::Ready, posts, mappings, run: Materializer::new(limit, method) }
    }

    /// The phase that the synchronisation is in.
    pub fn phase(&self) -> (phase: Phase)
        ensures
            phase == self@.phase,
    {
        self.phase
    }

    /// The counts of the transfers so far.
    pub fn summary(&self) -> (summary: Summary)
        ensures
            summary.total == self@.run.transfers.len(),
            summary.success == succeeded_count(self@.run.transfers),
            summary.failed == failed_count(self@.run.transfers),
    {
        self.run.summary()
    }

    /// How many transfers are running. Never more than the limit.
    pub fn running(&self) -> (n: usize)
        ensures
            n == running_count(self@.run.transfers),
            n <= self@.run.limit,
    {
        self.run.running()
    }
}

/// Decides what follows once the transfers stand as `run`.
fn proceed(posts: usize, run: Materializer) -> (r: (PostSync, SyncAction))
    ensures
        proceeds(run@, r.0@, r.1),
        r.0@.posts == posts,
        running_count(r.0@.run.transfers) <= r.0@.run.limit,
{
    let ghost before = run@;
    let mappings: Vec<Vec<(PathBuf, PathBuf)>> = Vec::new();
    assert(mappings_view(mappings@) =~= Seq::empty());
    let (run, job) = run.start_next();
    match job {
        Some(job) => {
            proof {
                lemma_first_pending_counts(before.transfers, job.id as int);
            }
            (PostSync { phase: Phase::Transferring, posts, mappings, run }, SyncAction::Transfer(job))
        },
        None => {
            let running = run.running();
            let pending = run.pending();
            let summary = run.summary();
            if running > 0 {
                (PostSync { phase: Phase::Transferring, posts, mappings, run }, SyncAction::Wait)
            } else if pending > 0 {
                (PostSync { phase: Phase::Transferring, posts, mappings, run }, SyncAction::Stall)
            } else {
                (
                    PostSync { phase: Phase::Finished, posts, mappings, run },
                    SyncAction::Done(summary),
                )
            }
        },
    }
}

/// Queues the files of every post, post after post.
fn queue_all(run: Materializer, mappings: Vec<Vec<(PathBuf, PathBuf)>>) -> (queued: Materializer)
    ensures
        queued@.limit == run@.limit,
        queued@.method == run@.method,
        queued@.transfers == run@.transfers + queued_all(mappings_view(mappings@)),
{
    let ghost before = run@;
    let ghost all = mappings_view(mappings@);
    let mut run = run;
    assert(before.transfers + queued_all(all.take(0)) =~= before.transfers);
    for files in it: mappings
        invariant
            all == mappings_view(it.seq()),
            run@.limit == before.limit,
            run@.method == before.method,
            run@.transfers == before.transfers + queued_all(all.take(it.index() as int)),
    {
        let ghost index = it.index() as int;
        assert(all[index] == files@);
        assert(all.take(index + 1).drop_last() =~= all.take(index));
        assert(all.take(index + 1).last() == all[index]);
        let ghost known = run@.transfers;
        run = run.queue(files);
        assert(run@.transfers =~= before.transfers + queued_all(all.take(index + 1)));
    }
    assert(all.take(all.len() as int) =~= all);
    run
}

/// Takes one step of the synchronisation of a creator's posts: from the
/// state and what the caller reports to the state that follows and what the
/// caller is to do next, as [`sync_step`] describes. Whatever the event, no
/// more transfers are running afterwards than the limit allows.
pub fn sync_posts(state: PostSync, event: SyncEvent) -> (r: (PostSync, SyncAction))
    ensures
        sync_step(state@, event, r.0@, r.1),
        running_count(r.0@.run.transfers) <= r.0@.run.limit,
{
    let ghost before = state@;
    let running = state.run.running();
    let PostSync { phase, posts, mut mappings, run } = state;
    match (phase, event) {
        (Phase::Ready, SyncEvent::Start) => {
            if posts == 0 {
                (PostSync { phase: Phase::Committing, posts, mappings, run }, SyncAction::Commit)
            } else {
                (PostSync { phase: Phase::Syncing, posts, mappings, run }, SyncAction::Sync(0))
            }
        },
        (Phase::Syncing, SyncEvent::Synced(files)) => {
            mappings.push(files);
            assert(mappings_view(mappings@) =~= before.mappings.push(files@));
            let synced = mappings.len();
            if synced < posts {
                (
                    PostSync { phase: Phase::Syncing, posts, mappings, run },
                    SyncAction::Sync(synced),
                )
            } else {
                (PostSync { phase: Phase::Committing, posts, mappings, run }, SyncAction::Commit)
            }
        },
        (Phase::Syncing, SyncEvent::Failed) | (Phase::Committing, SyncEvent::Failed) => {
            (PostSync { phase: Phase::Aborted, posts, mappings, run }, SyncAction::Abort)
        },
        (Phase::Committing, SyncEvent::Committed) => {
            let run = queue_all(run, mappings);
            proceed(posts, run)
        },
        (Phase::Transferring, SyncEvent::Launched) => proceed(posts, run),
        (Phase::Transferring, SyncEvent::Ended { id, error }) => {
            let (run, known) = run.finish(id, error);
            if known {
                proceed(posts, run)
            } else {
                (PostSync { phase, posts, mappings, run }, SyncAction::Rejected)
            }
        },
        (phase, _) => (PostSync { phase, posts, mappings, run }, SyncAction::Rejected),
    }
}

} // verus!
