//! Coordination of a scan: one producer that offers entries, a bounded queue
//! of jobs, a fixed pool of workers that claim and finish them, and the
//! detection of completion.
//!
//! The coordinator performs no work itself. It is told what happened (an
//! entry was discovered, a worker is idle, a job ended, the traversal is
//! over) and answers what to do. Its model keeps the state of every job that
//! was ever queued, so that completion can be stated of all of them.

use crate::evaluate::Finding;
use crate::filter::FileFilter;
use crate::filter::PathEntry;
use std::collections::VecDeque;
use vstd::prelude::*;

verus! {

/// Where a job stands. A discovered entry becomes a job when it is queued;
/// from there a job only moves forward, to one of the two settled states.
#[derive(Clone, Copy, Debug, PartialEq, Eq)]
pub enum JobState {
    /// Waiting in the queue for a worker.
    Queued,
    /// Claimed by a worker that has not finished it.
    InProgress,
    /// Evaluated.
    Completed,
    /// Given up after an error.
    Failed,
}

impl JobState {
    /// Whether the job has reached an end.
    pub open spec fn settled(self) -> bool {
        self is Completed || self is Failed
    }
}

/// Where the scan as a whole stands.
#[derive(Clone, Copy, Debug, PartialEq, Eq)]
pub enum Phase {
    /// The producer may still offer entries.
    Scanning,
    /// The producer is through, and jobs are still queued or in progress.
    Draining,
    /// The producer is through and every job is settled.
    Done,
}

/// One accepted entry, numbered in the order of acceptance.
#[derive(Clone, Debug, PartialEq, Eq)]
pub struct ScanJob {
    pub id: u64,
    pub entry: PathEntry,
}

/// Answer to an offered entry.
#[derive(Clone, Debug, PartialEq, Eq)]
pub enum Offer {
    /// The entry was queued as the job with this number.
    Queued(u64),
    /// The filter turned the entry away.
    Rejected,
    /// The queue is full: the entry comes back, to be offered again later.
    Full(PathEntry),
    /// The scan takes no more entries.
    Closed,
}

/// Answer to a worker that asks for work.
#[derive(Clone, Debug, PartialEq, Eq)]
pub enum Claim {
    /// The job to evaluate next.
    Job(ScanJob),
    /// Nothing can be handed out now: ask again later.
    Wait,
    /// The queue is closed and drained: the worker may leave.
    Finished,
}

/// How the evaluation of a job ended.
#[derive(Clone, Debug, PartialEq, Eq)]
pub enum JobOutcome {
    /// The file was evaluated, with or without a finding.
    Completed(Option<Finding>),
    /// The file could not be opened, read or scored.
    Failed,
}

impl JobOutcome {
    /// The settled state that the outcome puts a job in.
    pub open spec fn state(self) -> JobState {
        match self {
            JobOutcome::Completed(_) => JobState::Completed,
            JobOutcome::Failed => JobState::Failed,
        }
    }

    /// The finding that the outcome brings, if any.
    pub open spec fn finding(self) -> Option<Finding> {
        match self {
            JobOutcome::Completed(finding) => finding,
            JobOutcome::Failed => None,
        }
    }
}

/// Why the end of a job was not taken.
#[derive(Clone, Copy, Debug, PartialEq, Eq)]
pub enum ScanError {
    /// No job with this number was ever queued.
    UnknownJob,
    /// The job is still queued or already settled.
    NotInProgress,
}

/// Number of jobs in `jobs` that are in `state`.
pub open spec fn count_in(jobs: Seq<JobState>, state: JobState) -> nat
    decreases jobs.len(),
{
    if jobs.len() == 0 {
        0
    } else {
        count_in(jobs.drop_last(), state) + if jobs.last() == state {
            1nat
        } else {
            0nat
        }
    }
}

/// The coordinator as a mathematical value.
#[verifier::ext_equal]
pub struct ScanModel {
    pub filter: FileFilter,
    /// Most jobs that the queue holds.
    pub capacity: nat,
    /// Number of workers.
    pub pool_size: nat,
    /// The state of every job ever queued, by job number.
    pub jobs: Seq<JobState>,
    /// The jobs that wait for a worker, oldest first.
    pub queue: Seq<ScanJob>,
    /// Whether the producer is through.
    pub closed: bool,
    /// Whether the scan was cancelled.
    pub cancelled: bool,
}

impl ScanModel {
    /// Number of jobs in progress.
    pub open spec fn in_flight(self) -> nat {
        count_in(self.jobs, JobState::InProgress)
    }

    /// Number of jobs that were evaluated.
    pub open spec fn completed(self) -> nat {
        count_in(self.jobs, JobState::Completed)
    }

    /// Number of jobs that were given up.
    pub open spec fn failed(self) -> nat {
        count_in(self.jobs, JobState::Failed)
    }

    /// Whether `id` is the number of a job in progress.
    pub open spec fn in_progress(self, id: u64) -> bool {
        id < self.jobs.len() && self.jobs[id as int] is InProgress
    }

    /// Whether every job is settled.
    pub open spec fn all_settled(self) -> bool {
        forall|j: int| 0 <= j < self.jobs.len() ==> (#[trigger] self.jobs[j]).settled()
    }

    /// Whether the scan is complete: the producer is through and every job
    /// that was ever queued is settled.
    pub open spec fn done(self) -> bool {
        self.closed && self.all_settled()
    }

    pub open spec fn phase(self) -> Phase {
        if !self.closed {
            Phase::Scanning
        } else if self.all_settled() {
            Phase::Done
        } else {
            Phase::Draining
        }
    }

    /// What holds of the model in every state that the coordinator reaches:
    /// the queue holds exactly the queued jobs, in the order of their
    /// numbers, and neither the queue nor the pool is overfull.
    pub open spec fn consistent(self) -> bool {
        &&& self.jobs.len() <= u64::MAX
        &&& self.queue.len() == count_in(self.jobs, JobState::Queued)
        &&& self.queue.len() <= self.capacity
        &&& self.in_flight() <= self.pool_size
        &&& forall|i: int|
            0 <= i < self.queue.len() ==> (#[trigger] self.queue[i]).id < self.jobs.len()
                && self.jobs[self.queue[i].id as int] is Queued
        &&& forall|i: int, k: int|
            0 <= i < k < self.queue.len() ==> (#[trigger] self.queue[i]).id < (
            #[trigger] self.queue[k]).id
    }

    /// The answer to an offered entry.
    pub open spec fn offer_outcome(self, entry: PathEntry) -> Offer {
        if self.closed {
            Offer::Closed
        } else if !self.filter.accepts(entry) {
            Offer::Rejected
        } else if self.queue.len() >= self.capacity {
            Offer::Full(entry)
        } else {
            Offer::Queued(self.jobs.len() as u64)
        }
    }

    /// The model with `entry` queued as a new job.
    pub open spec fn enqueue(self, entry: PathEntry) -> ScanModel {
        ScanModel {
            jobs: self.jobs.push(JobState::Queued),
            queue: self.queue.push(ScanJob { id: self.jobs.len() as u64, entry }),
            ..self
        }
    }

    /// The model after an entry was offered.
    pub open spec fn after_offer(self, entry: PathEntry) -> ScanModel {
        if self.offer_outcome(entry) is Queued {
            self.enqueue(entry)
        } else {
            self
        }
    }

    /// Whether a job can be handed to a worker: one is queued and a worker
    /// of the pool is free.
    pub open spec fn can_claim(self) -> bool {
        self.queue.len() > 0 && self.in_flight() < self.pool_size
    }

    /// The answer to a worker that asks for work.
    pub open spec fn claim_outcome(self) -> Claim {
        if self.can_claim() {
            Claim::Job(self.queue[0])
        } else if self.closed && self.queue.len() == 0 {
            Claim::Finished
        } else {
            Claim::Wait
        }
    }

    /// The model after a worker asked for work.
    pub open spec fn after_claim(self) -> ScanModel {
        if self.can_claim() {
            ScanModel {
                jobs: self.jobs.update(self.queue[0].id as int, JobState::InProgress),
                queue: self.queue.drop_first(),
                ..self
            }
        } else {
            self
        }
    }

    /// The model with the job `id` put in `state`.
    pub open spec fn settle(self, id: u64, state: JobState) -> ScanModel {
        ScanModel { jobs: self.jobs.update(id as int, state), ..self }
    }

    /// The answer to the report that job `id` ended with `outcome`.
    pub open spec fn finish_outcome(self, id: u64, outcome: JobOutcome) -> Result<
        Option<Finding>,
        ScanError,
    > {
        if id >= self.jobs.len() {
            Err(ScanError::UnknownJob)
        } else if !(self.jobs[id as int] is InProgress) {
            Err(ScanError::NotInProgress)
        } else {
            Ok(outcome.finding())
        }
    }

    /// The model after the report that job `id` ended with `outcome`.
    pub open spec fn after_finish(self, id: u64, outcome: JobOutcome) -> ScanModel {
        if self.in_progress(id) {
            self.settle(id, outcome.state())
        } else {
            self
        }
    }

    /// The model with the producer through.
    pub open spec fn close(self) -> ScanModel {
        ScanModel { closed: true, ..self }
    }

    /// The model after a cancellation: the producer is stopped, and what is
    /// queued or in progress may still be finished.
    pub open spec fn cancel(self) -> ScanModel {
        ScanModel { closed: true, cancelled: true, ..self }
    }
}

/// Queuing one more job raises the count of its state by one.
pub proof fn lemma_count_push(jobs: Seq<JobState>, added: JobState, state: JobState)
    ensures
        count_in(jobs.push(added), state) == count_in(jobs, state) + if added == state {
            1nat
        } else {
            0nat
        },
{
    assert(jobs.push(added).drop_last() =~= jobs);
}

/// Moving one job to another state takes one from the count of the state it
/// leaves and adds one to the count of the state it enters.
pub proof fn lemma_count_update(jobs: Seq<JobState>, at: int, next: JobState, state: JobState)
    requires
        0 <= at < jobs.len(),
    ensures
        count_in(jobs.update(at, next), state) + (if jobs[at] == state {
            1nat
        } else {
            0nat
        }) == count_in(jobs, state) + (if next == state {
            1nat
        } else {
            0nat
        }),
    decreases jobs.len(),
{
    if at == jobs.len() - 1 {
        assert(jobs.update(at, next).drop_last() =~= jobs.drop_last());
    } else {
        assert(jobs.update(at, next).drop_last() =~= jobs.drop_last().update(at, next));
        lemma_count_update(jobs.drop_last(), at, next, state);
    }
}

/// Every job is in exactly one of the four states.
pub proof fn lemma_count_total(jobs: Seq<JobState>)
    ensures
        count_in(jobs, JobState::Queued) + count_in(jobs, JobState::InProgress) + count_in(
            jobs,
            JobState::Completed,
        ) + count_in(jobs, JobState::Failed) == jobs.len(),
    decreases jobs.len(),
{
    if jobs.len() > 0 {
        lemma_count_total(jobs.drop_last());
    }
}

/// No job is in a state exactly when the count of that state is zero.
pub proof fn lemma_count_zero(jobs: Seq<JobState>, state: JobState)
    ensures
        count_in(jobs, state) == 0 <==> forall|j: int|
            0 <= j < jobs.len() ==> #[trigger] jobs[j] != state,
    decreases jobs.len(),
{
    if jobs.len() > 0 {
        let rest = jobs.drop_last();
        lemma_count_zero(rest, state);
        if count_in(jobs, state) == 0 {
            assert forall|j: int| 0 <= j < jobs.len() implies #[trigger] jobs[j] != state by {
                if j < rest.len() {
                    assert(rest[j] == jobs[j]);
                }
            }
        }
        if forall|j: int| 0 <= j < jobs.len() ==> #[trigger] jobs[j] != state {
            assert forall|j: int| 0 <= j < rest.len() implies #[trigger] rest[j] != state by {
                assert(rest[j] == jobs[j]);
            }
            assert(jobs.last() == jobs[jobs.len() - 1]);
        }
    }
}

/// Taking an entry keeps the model consistent.
pub proof fn lemma_offer_keeps_consistency(model: ScanModel, entry: PathEntry)
    requires
        model.consistent(),
        model.jobs.len() < u64::MAX,
    ensures
        model.after_offer(entry).consistent(),
{
    if model.offer_outcome(entry) is Queued {
        let after = model.enqueue(entry);
        lemma_count_push(model.jobs, JobState::Queued, JobState::Queued);
        lemma_count_push(model.jobs, JobState::Queued, JobState::InProgress);
        assert forall|i: int| 0 <= i < after.queue.len() implies (#[trigger] after.queue[i]).id
            < after.jobs.len() && after.jobs[after.queue[i].id as int] is Queued by {
            if i < model.queue.len() {
                assert(after.queue[i] == model.queue[i]);
            }
        }
        assert forall|i: int, k: int| 0 <= i < k < after.queue.len() implies (
        #[trigger] after.queue[i]).id < (#[trigger] after.queue[k]).id by {
            assert(after.queue[i] == model.queue[i]);
            if k < model.queue.len() {
                assert(after.queue[k] == model.queue[k]);
            }
        }
    }
}

/// Handing out a job keeps the model consistent. The job is then in
/// progress and no longer in the queue, so it is never handed out again.
pub proof fn lemma_claim_hands_out_once(model: ScanModel)
    requires
        model.consistent(),
        model.can_claim(),
    ensures
        model.after_claim().consistent(),
        model.jobs[model.queue[0].id as int] is Queued,
        model.after_claim().in_progress(model.queue[0].id),
        forall|i: int|
            0 <= i < model.after_claim().queue.len() ==> (#[trigger] model.after_claim().queue[i]).id
                != model.queue[0].id,
{
    let after = model.after_claim();
    let id = model.queue[0].id;
    lemma_count_update(model.jobs, id as int, JobState::InProgress, JobState::Queued);
    lemma_count_update(model.jobs, id as int, JobState::InProgress, JobState::InProgress);
    assert forall|i: int| 0 <= i < after.queue.len() implies (#[trigger] after.queue[i]).id
        < after.jobs.len() && after.jobs[after.queue[i].id as int] is Queued
        && after.queue[i].id != id by {
        assert(after.queue[i] == model.queue[i + 1]);
        assert(model.queue[0].id < model.queue[i + 1].id);
    }
    assert forall|i: int, k: int| 0 <= i < k < after.queue.len() implies (
    #[trigger] after.queue[i]).id < (#[trigger] after.queue[k]).id by {
        assert(after.queue[i] == model.queue[i + 1]);
        assert(after.queue[k] == model.queue[k + 1]);
    }
}

/// Taking the end of a job keeps the model consistent.
pub proof fn lemma_finish_keeps_consistency(model: ScanModel, id: u64, outcome: JobOutcome)
    requires
        model.consistent(),
    ensures
        model.after_finish(id, outcome).consistent(),
{
    if model.in_progress(id) {
        let after = model.after_finish(id, outcome);
        lemma_count_update(model.jobs, id as int, outcome.state(), JobState::Queued);
        lemma_count_update(model.jobs, id as int, outcome.state(), JobState::InProgress);
        assert forall|i: int| 0 <= i < after.queue.len() implies (#[trigger] after.queue[i]).id
            < after.jobs.len() && after.jobs[after.queue[i].id as int] is Queued by {
            assert(model.jobs[model.queue[i].id as int] is Queued);
        }
    }
}

/// At every time each job is queued, in progress, completed or failed, and
/// the jobs that are queued or in progress are no more than the queue and
/// the pool can hold.
pub proof fn lemma_every_job_accounted(model: ScanModel)
    requires
        model.consistent(),
    ensures
        model.queue.len() + model.in_flight() + count_in(model.jobs, JobState::Completed)
            + count_in(model.jobs, JobState::Failed) == model.jobs.len(),
        model.queue.len() + model.in_flight() <= model.capacity + model.pool_size,
{
    lemma_count_total(model.jobs);
}

/// The scan is complete only when every job that was ever queued has been
/// evaluated or given up: the completed and the failed jobs together are all
/// the jobs, and none is queued or in progress.
pub proof fn lemma_done_accounts_for_every_job(model: ScanModel)
    requires
        model.consistent(),
        model.done(),
    ensures
        count_in(model.jobs, JobState::Completed) + count_in(model.jobs, JobState::Failed)
            == model.jobs.len(),
        model.queue.len() == 0,
        model.in_flight() == 0,
{
    lemma_count_total(model.jobs);
    lemma_count_zero(model.jobs, JobState::Queued);
    lemma_count_zero(model.jobs, JobState::InProgress);
    assert forall|j: int| 0 <= j < model.jobs.len() implies #[trigger] model.jobs[j]
        != JobState::Queued by {
        assert(model.jobs[j].settled());
    }
    assert forall|j: int| 0 <= j < model.jobs.len() implies #[trigger] model.jobs[j]
        != JobState::InProgress by {
        assert(model.jobs[j].settled());
    }
}

/// While any job is queued or in progress the scan is not complete, whether
/// or not the producer is through.
pub proof fn lemma_outstanding_job_blocks_completion(model: ScanModel, job: int)
    requires
        0 <= job < model.jobs.len(),
        !model.jobs[job].settled(),
    ensures
        !model.done(),
        !(model.phase() is Done),
{
}

/// A job that fails changes nothing but its own state. Its siblings in
/// progress stay in progress, and the end of each is taken as it would have
/// been without the failure, finding included.
pub proof fn lemma_failure_stays_local(
    model: ScanModel,
    failed: u64,
    sibling: u64,
    outcome: JobOutcome,
)
    requires
        model.consistent(),
        model.in_progress(failed),
        model.in_progress(sibling),
        sibling != failed,
    ensures
        model.after_finish(failed, JobOutcome::Failed).consistent(),
        model.after_finish(failed, JobOutcome::Failed).jobs[failed as int] is Failed,
        forall|j: int|
            0 <= j < model.jobs.len() && j != failed ==> model.after_finish(
                failed,
                JobOutcome::Failed,
            ).jobs[j] == model.jobs[j],
        model.after_finish(failed, JobOutcome::Failed).queue == model.queue,
        model.after_finish(failed, JobOutcome::Failed).closed == model.closed,
        model.after_finish(failed, JobOutcome::Failed).cancelled == model.cancelled,
        model.after_finish(failed, JobOutcome::Failed).in_progress(sibling),
        model.after_finish(failed, JobOutcome::Failed).finish_outcome(sibling, outcome) == Ok::<
            Option<Finding>,
            ScanError,
        >(outcome.finding()),
{
    lemma_finish_keeps_consistency(model, failed, JobOutcome::Failed);
}

/// The state of a scan: the queue, the jobs in progress and the tallies.
pub struct ScanCoordinator {
    filter: FileFilter,
    capacity: usize,
    pool_size: usize,
    queue: VecDeque<ScanJob>,
    running: Vec<u64>,
    accepted: u64,
    completed: u64,
    failed: u64,
    closed: bool,
    cancelled: bool,
    states: Ghost<Seq<JobState>>,
}

impl View for ScanCoordinator {
    type V = ScanModel;

    closed spec fn view(&self) -> ScanModel {
        ScanModel {
            filter: self.filter,
            capacity: self.capacity as nat,
            pool_size: self.pool_size as nat,
            jobs: self.states@,
            queue: self.queue@,
            closed: self.closed,
            cancelled: self.cancelled,
        }
    }
}

impl ScanCoordinator {
    /// The model is consistent, the tallies are those of the model, and the
    /// workers hold exactly the jobs that are in progress, each of them once.
    pub closed spec fn well_formed(&self) -> bool {
        &&& self@.consistent()
        &&& self.accepted == self.states@.len()
        &&& self.completed == count_in(self.states@, JobState::Completed)
        &&& self.failed == count_in(self.states@, JobState::Failed)
        &&& self.running@.len() == count_in(self.states@, JobState::InProgress)
        &&& forall|i: int|
            0 <= i < self.running@.len() ==> (#[trigger] self.running@[i]) < self.states@.len()
                && self.states@[self.running@[i] as int] is InProgress
        &&& forall|i: int, k: int|
            0 <= i < k < self.running@.len() ==> #[trigger] self.running@[i]
                != #[trigger] self.running@[k]
        &&& forall|j: int|
            0 <= j < self.states@.len() && (#[trigger] self.states@[j]) is InProgress
                ==> exists|i: int|
                0 <= i < self.running@.len() && #[trigger] self.running@[i] == j
    }

    /// A well-formed coordinator has a consistent model.
    pub proof fn lemma_consistent(&self)
        requires
            self.well_formed(),
        ensures
            self@.consistent(),
    {
    }

    /// A coordinator for a scan that has not begun.
    pub fn new(filter: FileFilter, capacity: usize, pool_size: usize) -> (coordinator:
        ScanCoordinator)
        ensures
            coordinator.well_formed(),
            coordinator@ == (ScanModel {
                filter,
                capacity: capacity as nat,
                pool_size: pool_size as nat,
                jobs: Seq::empty(),
                queue: Seq::empty(),
                closed: false,
                cancelled: false,
            }),
            coordinator@.in_flight() == 0,
            coordinator@.completed() == 0,
            coordinator@.failed() == 0,
    {
        ScanCoordinator {
            filter,
            capacity,
            pool_size,
            queue: VecDeque::new(),
            running: Vec::new(),
            accepted: 0,
            completed: 0,
            failed: 0,
            closed: false,
            cancelled: false,
            states: Ghost(Seq::empty()),
        }
    }

    /// Takes an entry from the producer: queues it as a job where the scan
    /// is open, the filter admits the entry and the queue has room.
    pub fn offer(&mut self, entry: PathEntry) -> (offer: Offer)
        requires
            old(self).well_formed(),
            old(self)@.jobs.len() < u64::MAX,
        ensures
            final(self).well_formed(),
            offer == old(self)@.offer_outcome(entry),
            final(self)@ == old(self)@.after_offer(entry),
            final(self)@.in_flight() == old(self)@.in_flight(),
            final(self)@.completed() == old(self)@.completed(),
            final(self)@.failed() == old(self)@.failed(),
    {
        if self.closed {
            return Offer::Closed;
        }
        if !self.filter.accept(&entry) {
            return Offer::Rejected;
        }
        if self.queue.len() >= self.capacity {
            return Offer::Full(entry);
        }
        let id: u64 = self.accepted;
        proof {
            lemma_count_push(self.states@, JobState::Queued, JobState::Queued);
            lemma_count_push(self.states@, JobState::Queued, JobState::InProgress);
            lemma_count_push(self.states@, JobState::Queued, JobState::Completed);
            lemma_count_push(self.states@, JobState::Queued, JobState::Failed);
        }
        self.queue.push_back(ScanJob { id, entry });
        self.accepted = id + 1;
        self.states = Ghost(self.states@.push(JobState::Queued));
        proof {
            assert(self@ =~= old(self)@.enqueue(entry));
            assert forall|j: int|
                0 <= j < self.states@.len() && (#[trigger] self.states@[j]) is InProgress
                    implies exists|i: int|
                0 <= i < self.running@.len() && #[trigger] self.running@[i] == j by {
                assert(old(self).states@[j] is InProgress);
            }
        }
        Offer::Queued(id)
    }

    /// Hands the oldest queued job to a worker, where there is one and the
    /// pool is not exhausted.
    pub fn claim(&mut self) -> (claim: Claim)
        requires
            old(self).well_formed(),
        ensures
            final(self).well_formed(),
            claim == old(self)@.claim_outcome(),
            final(self)@ == old(self)@.after_claim(),
            final(self)@.in_flight() == old(self)@.in_flight() + if claim is Job {
                1nat
            } else {
                0nat
            },
            final(self)@.completed() == old(self)@.completed(),
            final(self)@.failed() == old(self)@.failed(),
    {
        if self.queue.len() > 0 && self.running.len() < self.pool_size {
            let popped = self.queue.pop_front();
            match popped {
                Some(job) => {
                    let id: u64 = job.id;
                    proof {
                        assert(job == old(self).queue@[0]);
                        lemma_count_update(
                            self.states@,
                            id as int,
                            JobState::InProgress,
                            JobState::Queued,
                        );
                        lemma_count_update(
                            self.states@,
                            id as int,
                            JobState::InProgress,
                            JobState::InProgress,
                        );
                        lemma_count_update(
                            self.states@,
                            id as int,
                            JobState::InProgress,
                            JobState::Completed,
                        );
                        lemma_count_update(
                            self.states@,
                            id as int,
                            JobState::InProgress,
                            JobState::Failed,
                        );
                    }
                    self.running.push(id);
                    self.states = Ghost(self.states@.update(id as int, JobState::InProgress));
                    proof {
                        assert(self.queue@ =~= old(self).queue@.drop_first());
                        assert(self@ =~= old(self)@.after_claim());
                        assert forall|i: int| 0 <= i < self.queue@.len() implies (
                        #[trigger] self.queue@[i]).id < self.states@.len()
                            && self.states@[self.queue@[i].id as int] is Queued by {
                            assert(self.queue@[i] == old(self).queue@[i + 1]);
                            assert(old(self).queue@[0].id < old(self).queue@[i + 1].id);
                        }
                        assert forall|i: int, k: int|
                            0 <= i < k < self.queue@.len() implies (#[trigger] self.queue@[i]).id
                            < (#[trigger] self.queue@[k]).id by {
                            assert(self.queue@[i] == old(self).queue@[i + 1]);
                            assert(self.queue@[k] == old(self).queue@[k + 1]);
                        }
                        assert forall|i: int, k: int|
                            0 <= i < k < self.running@.len() implies #[trigger] self.running@[i]
                            != #[trigger] self.running@[k] by {
                            if k == self.running@.len() - 1 {
                                assert(self.running@[i] == old(self).running@[i]);
                            } else {
                                assert(self.running@[i] == old(self).running@[i]);
                                assert(self.running@[k] == old(self).running@[k]);
                            }
                        }
                        assert forall|i: int| 0 <= i < self.running@.len() implies (
                        #[trigger] self.running@[i]) < self.states@.len()
                            && self.states@[self.running@[i] as int] is InProgress by {
                            if i < old(self).running@.len() {
                                assert(self.running@[i] == old(self).running@[i]);
                            }
                        }
                        assert forall|j: int|
                            0 <= j < self.states@.len() && (#[trigger] self.states@[j])
                                is InProgress implies exists|i: int|
                            0 <= i < self.running@.len() && #[trigger] self.running@[i] == j by {
                            if j == id {
                                assert(self.running@[self.running@.len() - 1] == j);
                            } else {
                                assert(old(self).states@[j] is InProgress);
                                let i = choose|i: int|
                                    0 <= i < old(self).running@.len() && #[trigger] old(
                                        self,
                                    ).running@[i] == j;
                                assert(self.running@[i] == j);
                            }
                        }
                    }
                    Claim::Job(job)
                },
                None => Claim::Wait,
            }
        } else if self.closed && self.queue.len() == 0 {
            Claim::Finished
        } else {
            Claim::Wait
        }
    }

    /// Takes the end of a job from the worker that held it. The finding of
    /// the job, if it brought one, is handed on at once.
    ///
    /// A number that names no job in progress changes nothing: no job is
    /// settled twice.
    pub fn finish(&mut self, id: u64, outcome: JobOutcome) -> (emitted: Result<
        Option<Finding>,
        ScanError,
    >)
        requires
            old(self).well_formed(),
        ensures
            final(self).well_formed(),
            emitted == old(self)@.finish_outcome(id, outcome),
            final(self)@ == old(self)@.after_finish(id, outcome),
            emitted is Ok ==> final(self)@.in_flight() + 1 == old(self)@.in_flight(),
            emitted is Err ==> final(self)@.in_flight() == old(self)@.in_flight(),
            final(self)@.completed() == old(self)@.completed() + if emitted is Ok
                && outcome is Completed {
                1nat
            } else {
                0nat
            },
            final(self)@.failed() == old(self)@.failed() + if emitted is Ok && outcome is Failed {
                1nat
            } else {
                0nat
            },
    {
        if id >= self.accepted {
            return Err(ScanError::UnknownJob);
        }
        let n: usize = self.running.len();
        let mut at: usize = 0;
        while at < n && self.running[at] != id
            invariant
                n == self.running@.len(),
                at <= n,
                forall|i: int| 0 <= i < at ==> #[trigger] self.running@[i] != id,
            decreases n - at,
        {
            at = at + 1;
        }
        if at == n {
            proof {
                if self.states@[id as int] is InProgress {
                    let i = choose|i: int|
                        0 <= i < self.running@.len() && #[trigger] self.running@[i] == id;
                    assert(false);
                }
            }
            return Err(ScanError::NotInProgress);
        }
        let next: Ghost<JobState> = Ghost(outcome.state());
        proof {
            lemma_count_update(self.states@, id as int, next@, JobState::Queued);
            lemma_count_update(self.states@, id as int, next@, JobState::InProgress);
            lemma_count_update(self.states@, id as int, next@, JobState::Completed);
            lemma_count_update(self.states@, id as int, next@, JobState::Failed);
            lemma_count_total(self.states@);
        }
        self.running.remove(at);
        let emitted = match outcome {
            JobOutcome::Completed(finding) => {
                self.completed = self.completed + 1;
                finding
            },
            JobOutcome::Failed => {
                self.failed = self.failed + 1;
                None
            },
        };
        self.states = Ghost(self.states@.update(id as int, next@));
        proof {
            assert(self@ =~= old(self)@.after_finish(id, outcome));
            assert forall|i: int| 0 <= i < self.running@.len() implies (
            #[trigger] self.running@[i]) < self.states@.len()
                && self.states@[self.running@[i] as int] is InProgress by {
                if i < at {
                    assert(self.running@[i] == old(self).running@[i]);
                } else {
                    assert(self.running@[i] == old(self).running@[i + 1]);
                }
            }
            assert forall|i: int, k: int|
                0 <= i < k < self.running@.len() implies #[trigger] self.running@[i]
                != #[trigger] self.running@[k] by {
                let oi = if i < at {
                    i
                } else {
                    i + 1
                };
                let ok = if k < at {
                    k
                } else {
                    k + 1
                };
                assert(self.running@[i] == old(self).running@[oi]);
                assert(self.running@[k] == old(self).running@[ok]);
            }
            assert forall|j: int|
                0 <= j < self.states@.len() && (#[trigger] self.states@[j]) is InProgress
                    implies exists|i: int|
                0 <= i < self.running@.len() && #[trigger] self.running@[i] == j by {
                assert(j != id);
                assert(old(self).states@[j] is InProgress);
                let i = choose|i: int|
                    0 <= i < old(self).running@.len() && #[trigger] old(self).running@[i] == j;
                if i < at {
                    assert(self.running@[i] == j);
                } else {
                    assert(self.running@[i - 1] == j);
                }
            }
            assert forall|i: int| 0 <= i < self.queue@.len() implies (
            #[trigger] self.queue@[i]).id < self.states@.len()
                && self.states@[self.queue@[i].id as int] is Queued by {
                assert(old(self).states@[old(self).queue@[i].id as int] is Queued);
            }
        }
        Ok(emitted)
    }

    /// Notes that the producer has offered its last entry.
    pub fn finish_traversal(&mut self)
        requires
            old(self).well_formed(),
        ensures
            final(self).well_formed(),
            final(self)@ == old(self)@.close(),
            final(self)@.in_flight() == old(self)@.in_flight(),
            final(self)@.completed() == old(self)@.completed(),
            final(self)@.failed() == old(self)@.failed(),
    {
        self.closed = true;
    }

    /// Cancels the scan: no entry is taken from now on. Jobs that are queued
    /// or in progress can still be claimed and finished.
    pub fn cancel(&mut self)
        requires
            old(self).well_formed(),
        ensures
            final(self).well_formed(),
            final(self)@ == old(self)@.cancel(),
            final(self)@.in_flight() == old(self)@.in_flight(),
            final(self)@.completed() == old(self)@.completed(),
            final(self)@.failed() == old(self)@.failed(),
    {
        self.closed = true;
        self.cancelled = true;
    }

    /// Whether the scan is complete. It is only when the producer is through
    /// and every job that was queued has been evaluated or given up.
    pub fn is_done(&self) -> (done: bool)
        requires
            self.well_formed(),
        ensures
            done == self@.done(),
            done ==> self@.completed() + self@.failed() == self@.jobs.len(),
    {
        proof {
            self.lemma_idle_means_settled();
            if self@.done() {
                lemma_done_accounts_for_every_job(self@);
            }
        }
        self.closed && self.queue.len() == 0 && self.running.len() == 0
    }

    /// Where the scan stands.
    pub fn phase(&self) -> (phase: Phase)
        requires
            self.well_formed(),
        ensures
            phase == self@.phase(),
    {
        proof {
            self.lemma_idle_means_settled();
        }
        if !self.closed {
            Phase::Scanning
        } else if self.queue.len() == 0 && self.running.len() == 0 {
            Phase::Done
        } else {
            Phase::Draining
        }
    }

    proof fn lemma_idle_means_settled(&self)
        requires
            self.well_formed(),
        ensures
            (self.queue@.len() == 0 && self.running@.len() == 0) <==> self@.all_settled(),
    {
        lemma_count_zero(self.states@, JobState::Queued);
        lemma_count_zero(self.states@, JobState::InProgress);
        if self@.all_settled() {
            if self.queue@.len() > 0 {
                assert(self.states@[self.queue@[0].id as int] is Queued);
                assert(self.states@[self.queue@[0].id as int].settled());
            }
            if self.running@.len() > 0 {
                assert(self.states@[self.running@[0] as int] is InProgress);
                assert(self.states@[self.running@[0] as int].settled());
            }
        }
        if self.queue@.len() == 0 && self.running@.len() == 0 {
            assert forall|j: int| 0 <= j < self.states@.len() implies (
            #[trigger] self.states@[j]).settled() by {
                assert(self.states@[j] != JobState::Queued);
                assert(self.states@[j] != JobState::InProgress);
            }
        }
    }

    /// Whether the scan was cancelled.
    pub fn is_cancelled(&self) -> (cancelled: bool)
        ensures
            cancelled == self@.cancelled,
    {
        self.cancelled
    }

    /// Number of jobs queued since the scan began.
    pub fn accepted(&self) -> (n: u64)
        requires
            self.well_formed(),
        ensures
            n == self@.jobs.len(),
    {
        self.accepted
    }

    /// Number of jobs that were evaluated.
    pub fn completed(&self) -> (n: u64)
        requires
            self.well_formed(),
        ensures
            n == self@.completed(),
    {
        self.completed
    }

    /// Number of jobs that were given up.
    pub fn failed(&self) -> (n: u64)
        requires
            self.well_formed(),
        ensures
            n == self@.failed(),
    {
        self.failed
    }

    /// Number of jobs that wait in the queue.
    pub fn pending(&self) -> (n: usize)
        requires
            self.well_formed(),
        ensures
            n == self@.queue.len(),
            n == count_in(self@.jobs, JobState::Queued),
    {
        self.queue.len()
    }

    /// Number of jobs that workers hold.
    pub fn in_flight(&self) -> (n: usize)
        requires
            self.well_formed(),
        ensures
            n == self@.in_flight(),
    {
        self.running.len()
    }
}

} // verus!
