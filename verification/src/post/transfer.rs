//! The file transfers of a run: which are waiting, which are under way, and
//! how each of them ended.

use crate::config::TransformMethod;
use std::path::PathBuf;
use vstd::prelude::*;

verus! {

/// Where one file transfer stands. A transfer starts out pending, runs once
/// and ends for good: nothing is tried again.
#[derive(Debug, PartialEq, Eq)]
pub enum TransferState {
    /// Not started yet.
    Pending,
    /// Under way; it holds one of the slots.
    Running,
    /// Ended well.
    Succeeded,
    /// Ended with this error.
    Failed(String),
}

/// The mathematical content of a [`TransferState`].
pub enum StateView {
    Pending,
    Running,
    Succeeded,
    Failed(Seq<char>),
}

impl View for TransferState {
    type V = StateView;

    open spec fn view(&self) -> StateView {
        match *self {
            TransferState::Pending => StateView::Pending,
            TransferState::Running => StateView::Running,
            TransferState::Succeeded => StateView::Succeeded,
            TransferState::Failed(message) => StateView::Failed(message@),
        }
    }
}

/// One file to be placed at its destination.
#[derive(Debug)]
pub struct Transfer {
    pub source: PathBuf,
    pub target: PathBuf,
    /// The first file of its post: the directory of its target is made
    /// ready before it starts.
    pub leading: bool,
    pub state: TransferState,
}

/// The mathematical content of a [`Transfer`].
pub struct TransferView {
    pub source: PathBuf,
    pub target: PathBuf,
    pub leading: bool,
    pub state: StateView,
}

impl View for Transfer {
    type V = TransferView;

    open spec fn view(&self) -> TransferView {
        TransferView {
            source: self.source,
            target: self.target,
            leading: self.leading,
            state: self.state@,
        }
    }
}

/// The content of a list of transfers.
pub open spec fn transfers_view(transfers: Seq<Transfer>) -> Seq<TransferView> {
    transfers.map_values(|transfer: Transfer| transfer@)
}

/// A transfer to start now.
#[derive(Debug, PartialEq, Eq)]
pub struct Job {
    /// The number under which its end is reported.
    pub id: usize,
    /// How the file is to be placed.
    pub method: TransformMethod,
    pub source: PathBuf,
    pub target: PathBuf,
    /// Whether the directory of the target is to be made ready first.
    pub leading: bool,
}

/// The counts of a run.
#[derive(Debug, Clone, Copy, PartialEq, Eq, Structural)]
pub struct Summary {
    /// Transfers known to the run.
    pub total: usize,
    /// Transfers that ended well.
    pub success: usize,
    /// Transfers that ended with an error.
    pub failed: usize,
}

/// How many of `transfers` are pending.
pub open spec fn pending_count(transfers: Seq<TransferView>) -> nat
    decreases transfers.len(),
{
    if transfers.len() == 0 {
        0
    } else {
        pending_count(transfers.drop_last()) + if transfers.last().state is Pending {
            1nat
        } else {
            0nat
        }
    }
}

/// How many of `transfers` are running.
pub open spec fn running_count(transfers: Seq<TransferView>) -> nat
    decreases transfers.len(),
{
    if transfers.len() == 0 {
        0
    } else {
        running_count(transfers.drop_last()) + if transfers.last().state is Running {
            1nat
        } else {
            0nat
        }
    }
}

/// How many of `transfers` ended well.
pub open spec fn succeeded_count(transfers: Seq<TransferView>) -> nat
    decreases transfers.len(),
{
    if transfers.len() == 0 {
        0
    } else {
        succeeded_count(transfers.drop_last()) + if transfers.last().state is Succeeded {
            1nat
        } else {
            0nat
        }
    }
}

/// How many of `transfers` ended with an error.
pub open spec fn failed_count(transfers: Seq<TransferView>) -> nat
    decreases transfers.len(),
{
    if transfers.len() == 0 {
        0
    } else {
        failed_count(transfers.drop_last()) + if transfers.last().state is Failed {
            1nat
        } else {
            0nat
        }
    }
}

/// Every transfer is in exactly one state.
pub proof fn lemma_counts_add_up(transfers: Seq<TransferView>)
    ensures
        pending_count(transfers) + running_count(transfers) + succeeded_count(transfers)
            + failed_count(transfers) == transfers.len(),
    decreases transfers.len(),
{
    if transfers.len() > 0 {
        lemma_counts_add_up(transfers.drop_last());
    }
}

/// Changing the state of one transfer moves one unit from the count of its
/// old state to the count of its new state.
pub proof fn lemma_counts_after_update(transfers: Seq<TransferView>, i: int, next: TransferView)
    requires
        0 <= i < transfers.len(),
    ensures
        pending_count(transfers.update(i, next)) == pending_count(transfers) - (if transfers[i].state is Pending {
            1int
        } else {
            0int
        }) + (if next.state is Pending {
            1int
        } else {
            0int
        }),
        running_count(transfers.update(i, next)) == running_count(transfers) - (if transfers[i].state is Running {
            1int
        } else {
            0int
        }) + (if next.state is Running {
            1int
        } else {
            0int
        }),
        succeeded_count(transfers.update(i, next)) == succeeded_count(transfers) - (if transfers[i].state is Succeeded {
            1int
        } else {
            0int
        }) + (if next.state is Succeeded {
            1int
        } else {
            0int
        }),
        failed_count(transfers.update(i, next)) == failed_count(transfers) - (if transfers[i].state is Failed {
            1int
        } else {
            0int
        }) + (if next.state is Failed {
            1int
        } else {
            0int
        }),
    decreases transfers.len(),
{
    let updated = transfers.update(i, next);
    if i == transfers.len() - 1 {
        assert(updated.drop_last() =~= transfers.drop_last());
    } else {
        lemma_counts_after_update(transfers.drop_last(), i, next);
        assert(updated.drop_last() =~= transfers.drop_last().update(i, next));
    }
}

/// Adding pending transfers changes no other count.
pub proof fn lemma_counts_after_push(transfers: Seq<TransferView>, next: TransferView)
    ensures
        pending_count(transfers.push(next)) == pending_count(transfers) + (if next.state is Pending {
            1int
        } else {
            0int
        }),
        running_count(transfers.push(next)) == running_count(transfers) + (if next.state is Running {
            1int
        } else {
            0int
        }),
        succeeded_count(transfers.push(next)) == succeeded_count(transfers) + (if next.state is Succeeded {
            1int
        } else {
            0int
        }),
        failed_count(transfers.push(next)) == failed_count(transfers) + (if next.state is Failed {
            1int
        } else {
            0int
        }),
{
    assert(transfers.push(next).drop_last() =~= transfers);
}

/// The transfers that a batch of files becomes: pending, in the order of
/// the batch, the first of them leading. Each file is given as its target
/// and its source.
pub open spec fn queued(files: Seq<(PathBuf, PathBuf)>) -> Seq<TransferView> {
    Seq::new(
        files.len(),
        |i: int|
            TransferView {
                source: files[i].1,
                target: files[i].0,
                leading: i == 0,
                state: StateView::Pending,
            },
    )
}

/// The transfer at `i` is pending and none before it is.
pub open spec fn first_pending(transfers: Seq<TransferView>, i: int) -> bool {
    &&& 0 <= i < transfers.len()
    &&& transfers[i].state is Pending
    &&& forall|j: int| 0 <= j < i ==> !((#[trigger] transfers[j]).state is Pending)
}

/// The state in which a transfer ends, given the error it reported.
pub open spec fn ended(error: Option<String>) -> StateView {
    match error {
        Some(message) => StateView::Failed(message@),
        None => StateView::Succeeded,
    }
}

/// The file transfers of a run and the rule that starts them: at no time
/// are more of them running than the limit allows.
#[derive(Debug)]
pub struct Materializer {
    limit: usize,
    method: TransformMethod,
    transfers: Vec<Transfer>,
    /// Transfers before this place have left the pending state, those from
    /// it on have not.
    started: usize,
    running: usize,
    succeeded: usize,
    failed: usize,
}

/// The mathematical content of a [`Materializer`].
pub struct MaterializerView {
    /// How many transfers may run at a time.
    pub limit: usize,
    /// How every file of the run is placed.
    pub method: TransformMethod,
    /// Every transfer of the run, in the order in which it was queued.
    pub transfers: Seq<TransferView>,
}

impl Materializer {
    #[verifier::type_invariant]
    spec fn well_formed(self) -> bool {
        let transfers = transfers_view(self.transfers@);
        &&& self.started <= transfers.len()
        &&& forall|i: int| 0 <= i < self.started ==> !((#[trigger] transfers[i]).state is Pending)
        &&& forall|i: int|
            self.started <= i < transfers.len() ==> (#[trigger] transfers[i]).state is Pending
        &&& self.running == running_count(transfers)
        &&& self.succeeded == succeeded_count(transfers)
        &&& self.failed == failed_count(transfers)
        &&& self.running <= self.limit
    }

    /// The limit and the transfers.
    pub closed spec fn view(&self) -> MaterializerView {
        MaterializerView {
            limit: self.limit,
            method: self.method,
            transfers: transfers_view(self.transfers@),
        }
    }

    /// A run without transfers that lets `limit` of them run at a time and
    /// places every file by `method`.
    pub fn new(limit: usize, method: TransformMethod) -> (run: Self)
        ensures
            run@ == (MaterializerView { limit, method, transfers: Seq::empty() }),
    {
        let transfers: Vec<Transfer> = Vec::new();
        assert(transfers_view(transfers@) =~= Seq::empty());
        Materializer { limit, method, transfers, started: 0, running: 0, succeeded: 0, failed: 0 }
    }

    /// Adds the files of one post, each given as its target and its source,
    /// as pending transfers behind those already known.
    pub fn queue(self, files: Vec<(PathBuf, PathBuf)>) -> (run: Self)
        ensures
            run@.limit == self@.limit,
            run@.method == self@.method,
            run@.transfers == self@.transfers + queued(files@),
            running_count(run@.transfers) == running_count(self@.transfers),
            running_count(run@.transfers) <= run@.limit,
    {
        proof {
            use_type_invariant(&self);
        }
        let ghost before = self@.transfers;
        let Materializer { limit, method, mut transfers, started, running, succeeded, failed } =
            self;
        let mut i: usize = 0;
        while i < files.len()
            invariant
                i <= files.len(),
                transfers_view(transfers@) == before + queued(files@).take(i as int),
                started <= before.len(),
                forall|k: int| 0 <= k < started ==> !((#[trigger] before[k]).state is Pending),
                forall|k: int| started <= k < before.len() ==> (#[trigger] before[k]).state is Pending,
                running == running_count(transfers_view(transfers@)),
                succeeded == succeeded_count(transfers_view(transfers@)),
                failed == failed_count(transfers_view(transfers@)),
                running == running_count(before),
                running <= limit,
            decreases files.len() - i,
        {
            let ghost known = transfers_view(transfers@);
            let transfer = Transfer {
                source: files[i].1.clone(),
                target: files[i].0.clone(),
                leading: i == 0,
                state: TransferState::Pending,
            };
            proof {
                lemma_counts_after_push(known, transfer@);
            }
            transfers.push(transfer);
            assert(transfers_view(transfers@) =~= known.push(queued(files@)[i as int]));
            assert(before + queued(files@).take(i + 1) =~= (before + queued(files@).take(
                i as int,
            )).push(queued(files@)[i as int]));
            i = i + 1;
        }
        assert(queued(files@).take(i as int) =~= queued(files@));
        Materializer { limit, method, transfers, started, running, succeeded, failed }
    }

    /// Starts the first pending transfer if a slot is free. The transfer is
    /// then running and is handed out as a job; where no slot is free or
    /// nothing is pending, nothing changes.
    pub fn start_next(self) -> (r: (Self, Option<Job>))
        ensures
            r.0@.limit == self@.limit,
            r.0@.method == self@.method,
            match r.1 {
                Some(job) => {
                    &&& running_count(self@.transfers) < self@.limit
                    &&& first_pending(self@.transfers, job.id as int)
                    &&& job.method == self@.method
                    &&& job.source == self@.transfers[job.id as int].source
                    &&& job.target == self@.transfers[job.id as int].target
                    &&& job.leading == self@.transfers[job.id as int].leading
                    &&& r.0@.transfers == self@.transfers.update(
                        job.id as int,
                        TransferView {
                            state: StateView::Running,
                            ..self@.transfers[job.id as int]
                        },
                    )
                    &&& running_count(r.0@.transfers) == running_count(self@.transfers) + 1
                },
                None => {
                    &&& r.0@ == self@
                    &&& running_count(self@.transfers) >= self@.limit || pending_count(
                        self@.transfers,
                    ) == 0
                },
            },
            running_count(r.0@.transfers) <= r.0@.limit,
    {
        proof {
            use_type_invariant(&self);
            lemma_no_pending(self@.transfers, self.started as int);
        }
        if self.running >= self.limit || self.started >= self.transfers.len() {
            return (self, None);
        }
        let ghost before = self@.transfers;
        let Materializer { limit, method, mut transfers, started, running, succeeded, failed } =
            self;
        let job = Job {
            id: started,
            method,
            source: transfers[started].source.clone(),
            target: transfers[started].target.clone(),
            leading: transfers[started].leading,
        };
        let next = Transfer {
            source: transfers[started].source.clone(),
            target: transfers[started].target.clone(),
            leading: transfers[started].leading,
            state: TransferState::Running,
        };
        proof {
            lemma_counts_after_update(before, started as int, next@);
            lemma_counts_add_up(before.update(started as int, next@));
        }
        transfers.set(started, next);
        assert(transfers_view(transfers@) =~= before.update(started as int, next@));
        (
            Materializer {
                limit,
                method,
                transfers,
                started: started + 1,
                running: running + 1,
                succeeded,
                failed,
            },
            Some(job),
        )
    }

    /// Records how the running transfer `id` ended: with `error`, or well
    /// where there is none. The answer says whether `id` named a running
    /// transfer; if not, nothing changes. No other transfer is touched, and
    /// the count of failures grows by one exactly when an error is recorded.
    pub fn finish(self, id: usize, error: Option<String>) -> (r: (Self, bool))
        ensures
            r.0@.limit == self@.limit,
            r.0@.method == self@.method,
            r.1 == (id < self@.transfers.len() && self@.transfers[id as int].state is Running),
            r.1 ==> r.0@.transfers == self@.transfers.update(
                id as int,
                TransferView { state: ended(error), ..self@.transfers[id as int] },
            ),
            !r.1 ==> r.0@ == self@,
            failed_count(r.0@.transfers) == failed_count(self@.transfers) + (if r.1
                && error is Some {
                1int
            } else {
                0int
            }),
            succeeded_count(r.0@.transfers) == succeeded_count(self@.transfers) + (if r.1
                && error is None {
                1int
            } else {
                0int
            }),
            running_count(r.0@.transfers) == running_count(self@.transfers) - (if r.1 {
                1int
            } else {
                0int
            }),
            running_count(r.0@.transfers) <= r.0@.limit,
    {
        proof {
            use_type_invariant(&self);
        }
        if id >= self.transfers.len() {
            return (self, false);
        }
        if let TransferState::Running = self.transfers[id].state {
        } else {
            return (self, false);
        }
        let ghost before = self@.transfers;
        let Materializer { limit, method, mut transfers, started, running, succeeded, failed } =
            self;
        let failure = error.is_some();
        let state = match error {
            Some(message) => TransferState::Failed(message),
            None => TransferState::Succeeded,
        };
        let next = Transfer {
            source: transfers[id].source.clone(),
            target: transfers[id].target.clone(),
            leading: transfers[id].leading,
            state,
        };
        proof {
            lemma_counts_after_update(before, id as int, next@);
            lemma_counts_add_up(before.update(id as int, next@));
        }
        transfers.set(id, next);
        assert(transfers_view(transfers@) =~= before.update(id as int, next@));
        let run = if failure {
            Materializer {
                limit,
                method,
                transfers,
                started,
                running: running - 1,
                succeeded,
                failed: failed + 1,
            }
        } else {
            Materializer {
                limit,
                method,
                transfers,
                started,
                running: running - 1,
                succeeded: succeeded + 1,
                failed,
            }
        };
        (run, true)
    }

    /// How many transfers may run at a time.
    pub fn limit(&self) -> (limit: usize)
        ensures
            limit == self@.limit,
    {
        self.limit
    }

    /// How every file of the run is placed.
    pub fn method(&self) -> (method: TransformMethod)
        ensures
            method == self@.method,
    {
        self.method
    }

    /// How many transfers are running. Never more than the limit.
    pub fn running(&self) -> (n: usize)
        ensures
            n == running_count(self@.transfers),
            n <= self@.limit,
    {
        proof {
            use_type_invariant(self);
        }
        self.running
    }

    /// How many transfers are waiting for a slot.
    pub fn pending(&self) -> (n: usize)
        ensures
            n == pending_count(self@.transfers),
    {
        proof {
            use_type_invariant(self);
            lemma_pending_from(self@.transfers, self.started as int);
        }
        self.transfers.len() - self.started
    }

    /// The counts of the run so far.
    pub fn summary(&self) -> (summary: Summary)
        ensures
            summary.total == self@.transfers.len(),
            summary.success == succeeded_count(self@.transfers),
            summary.failed == failed_count(self@.transfers),
    {
        proof {
            use_type_invariant(self);
        }
        Summary { total: self.transfers.len(), success: self.succeeded, failed: self.failed }
    }
}

/// Where the transfers before `started` have all started and the others
/// have not, the pending ones are those from `started` on.
pub proof fn lemma_pending_from(transfers: Seq<TransferView>, started: int)
    requires
        0 <= started <= transfers.len(),
        forall|i: int| 0 <= i < started ==> !((#[trigger] transfers[i]).state is Pending),
        forall|i: int| started <= i < transfers.len() ==> (#[trigger] transfers[i]).state is Pending,
    ensures
        pending_count(transfers) == transfers.len() - started,
    decreases transfers.len(),
{
    if transfers.len() > 0 {
        let front = transfers.drop_last();
        assert(forall|i: int| 0 <= i < front.len() ==> front[i] == transfers[i]);
        if started == transfers.len() {
            lemma_pending_from(front, started - 1);
            assert(!(transfers[started - 1].state is Pending));
            lemma_all_started(front);
        } else {
            lemma_pending_from(front, started);
        }
    }
}

/// Where no transfer is pending, the count of pending transfers is zero.
pub proof fn lemma_all_started(transfers: Seq<TransferView>)
    requires
        forall|i: int| 0 <= i < transfers.len() ==> !((#[trigger] transfers[i]).state is Pending),
    ensures
        pending_count(transfers) == 0,
    decreases transfers.len(),
{
    if transfers.len() > 0 {
        let front = transfers.drop_last();
        assert(forall|i: int| 0 <= i < front.len() ==> front[i] == transfers[i]);
        lemma_all_started(front);
    }
}

/// The same, stated for the case that everything has started.
pub proof fn lemma_no_pending(transfers: Seq<TransferView>, started: int)
    requires
        0 <= started <= transfers.len(),
        forall|i: int| 0 <= i < started ==> !((#[trigger] transfers[i]).state is Pending),
        forall|i: int| started <= i < transfers.len() ==> (#[trigger] transfers[i]).state is Pending,
    ensures
        started == transfers.len() ==> pending_count(transfers) == 0,
{
    lemma_pending_from(transfers, started);
}

} // verus!
