//! The worker pool: a fixed set of workers fed by one shared job queue.
//!
//! Nothing here starts a thread or blocks. A pool is a value that its owner
//! keeps behind a lock. The thread of worker `i` asks it what to do next
//! with [`WorkerPool::receive`], runs the job it is given outside the lock,
//! and reports the end of the job with [`WorkerPool::complete`].

use crate::error::{Error, ErrorView};
use crate::log::{bracketed, Level, Logger, LoggerView, Record, RecordView};
use crate::text::{decimal, push_decimal};
use std::collections::VecDeque;
use vstd::prelude::*;

verus! {

/// Where a worker stands in its life.
#[derive(Debug, Clone, Copy, PartialEq, Eq, Structural)]
pub enum WorkerState {
    /// Waiting for a job.
    Idle,
    /// Running a job.
    Running,
    /// Gone for good: the queue was closed and empty.
    Stopped,
}

/// How a job ended.
#[derive(Debug, Clone, Copy, PartialEq, Eq, Structural)]
pub enum JobOutcome {
    /// The job ran to its end.
    Completed,
    /// The job failed or panicked.
    Failed,
}

/// What can happen to a worker.
#[derive(Debug, Clone, Copy, PartialEq, Eq, Structural)]
pub enum WorkerEvent {
    /// The queue handed the worker a job.
    JobReceived,
    /// The job that the worker ran has ended.
    JobEnded(JobOutcome),
    /// The queue reported that it is closed and empty.
    QueueClosed,
}

/// The state of a worker after `event`. An event that does not fit the
/// state changes nothing.
pub open spec fn next_state(state: WorkerState, event: WorkerEvent) -> WorkerState {
    match (state, event) {
        (WorkerState::Idle, WorkerEvent::JobReceived) => WorkerState::Running,
        (WorkerState::Running, WorkerEvent::JobEnded(_)) => WorkerState::Idle,
        (WorkerState::Idle, WorkerEvent::QueueClosed) => WorkerState::Stopped,
        _ => state,
    }
}

/// The context label of the worker with the ordinal `id`.
pub open spec fn worker_label(id: nat) -> Seq<char> {
    "worker-"@ + decimal(id)
}

/// The logger of the worker with the ordinal `id` in a pool that logs
/// through `pool`.
pub open spec fn worker_logger(pool: LoggerView, id: nat) -> LoggerView {
    LoggerView { context_stack: pool.context_stack.push(bracketed(worker_label(id))), ..pool }
}

/// What a worker writes to its log when `event` reaches it in `state`.
pub open spec fn worker_record(logger: LoggerView, state: WorkerState, event: WorkerEvent) -> Option<
    RecordView,
> {
    match (state, event) {
        (WorkerState::Idle, WorkerEvent::JobReceived) => logger.record(
            "Received job from worker pool"@,
        ),
        (WorkerState::Running, WorkerEvent::JobEnded(JobOutcome::Completed)) => logger.record(
            "Job completed"@,
        ),
        (WorkerState::Running, WorkerEvent::JobEnded(JobOutcome::Failed)) => (LoggerView {
            level: Level::SystemError,
            ..logger
        }).record("Job failed"@),
        (WorkerState::Idle, WorkerEvent::QueueClosed) => logger.record("Worker pool closed"@),
        _ => None,
    }
}

/// One worker of a pool: its ordinal, its logger and its state.
#[derive(Debug)]
pub struct Worker {
    id: usize,
    logger: Logger,
    state: WorkerState,
}

/// What a [`Worker`] holds, as plain values.
pub struct WorkerView {
    pub id: usize,
    pub logger: LoggerView,
    pub state: WorkerState,
}

impl View for Worker {
    type V = WorkerView;

    closed spec fn view(&self) -> WorkerView {
        WorkerView { id: self.id, logger: self.logger@, state: self.state }
    }
}

impl Worker {
    /// An idle worker with the ordinal `id` that logs through `logger`
    /// under the label `worker-` and its ordinal.
    pub fn new(id: usize, logger: Logger) -> (worker: Worker)
        ensures
            worker@ == (WorkerView {
                id,
                logger: worker_logger(logger@, id as nat),
                state: WorkerState::Idle,
            }),
    {
        let mut label = String::from_str("worker-");
        push_decimal(&mut label, id as u64);
        Worker { id, logger: logger.with(label.as_str()), state: WorkerState::Idle }
    }

    /// The ordinal of the worker.
    pub fn id(&self) -> (id: usize)
        ensures
            id == self@.id,
    {
        self.id
    }

    /// The state of the worker.
    pub fn state(&self) -> (state: WorkerState)
        ensures
            state == self@.state,
    {
        self.state
    }

    /// Takes the worker through `event` and returns what it writes to its
    /// log. A job that failed leaves the worker idle, as one that completed
    /// does.
    pub fn handle(&mut self, event: WorkerEvent) -> (record: Option<Record>)
        ensures
            final(self)@ == (WorkerView {
                state: next_state(old(self)@.state, event),
                ..old(self)@
            }),
            record.deep_view() == worker_record(old(self)@.logger, old(self)@.state, event),
    {
        match (self.state, event) {
            (WorkerState::Idle, WorkerEvent::JobReceived) => {
                self.state = WorkerState::Running;
                self.logger.log("Received job from worker pool")
            },
            (WorkerState::Running, WorkerEvent::JobEnded(JobOutcome::Completed)) => {
                self.state = WorkerState::Idle;
                self.logger.log("Job completed")
            },
            (WorkerState::Running, WorkerEvent::JobEnded(JobOutcome::Failed)) => {
                self.state = WorkerState::Idle;
                self.logger.with_level(Level::SystemError).log("Job failed")
            },
            (WorkerState::Idle, WorkerEvent::QueueClosed) => {
                self.state = WorkerState::Stopped;
                self.logger.log("Worker pool closed")
            },
            _ => None,
        }
    }
}

/// What a [`JobQueue`] holds: the jobs that wait, oldest first, and whether
/// its producer side is still open.
pub struct QueueView<J> {
    pub pending: Seq<J>,
    pub open: bool,
}

/// What a worker gets when it asks a queue for a job.
#[derive(Debug, PartialEq, Eq)]
pub enum Received<J> {
    /// The oldest job that waited.
    Job(J),
    /// Nothing waits, but more may come: the worker blocks.
    Empty,
    /// Nothing waits and nothing will come.
    Closed,
}

/// An unbounded first-in, first-out queue of jobs with a producer side that
/// can be closed.
#[derive(Debug)]
pub struct JobQueue<J> {
    pending: VecDeque<J>,
    open: bool,
}

impl<J> View for JobQueue<J> {
    type V = QueueView<J>;

    closed spec fn view(&self) -> QueueView<J> {
        QueueView { pending: self.pending@, open: self.open }
    }
}

impl<J> JobQueue<J> {
    /// An open queue in which nothing waits.
    pub fn new() -> (queue: JobQueue<J>)
        ensures
            queue@ == (QueueView { pending: Seq::<J>::empty(), open: true }),
    {
        JobQueue { pending: VecDeque::new(), open: true }
    }

    /// Puts `job` behind the jobs that wait. A closed queue takes nothing
    /// and hands the job back.
    pub fn submit(&mut self, job: J) -> (sent: Result<(), J>)
        ensures
            old(self)@.open ==> sent is Ok && final(self)@ == (QueueView {
                pending: old(self)@.pending.push(job),
                open: true,
            }),
            !old(self)@.open ==> sent == Err::<(), J>(job) && final(self)@ == old(self)@,
    {
        if self.open {
            self.pending.push_back(job);
            Ok(())
        } else {
            Err(job)
        }
    }

    /// Takes the oldest job out of the queue. Jobs that were accepted
    /// before the queue was closed are still handed out.
    pub fn receive(&mut self) -> (received: Received<J>)
        ensures
            match received {
                Received::Job(job) => {
                    &&& old(self)@.pending.len() > 0
                    &&& job == old(self)@.pending[0]
                    &&& final(self)@ == (QueueView {
                        pending: old(self)@.pending.drop_first(),
                        ..old(self)@
                    })
                },
                Received::Empty => {
                    &&& old(self)@.pending.len() == 0
                    &&& old(self)@.open
                    &&& final(self)@ == old(self)@
                },
                Received::Closed => {
                    &&& old(self)@.pending.len() == 0
                    &&& !old(self)@.open
                    &&& final(self)@ == old(self)@
                },
            },
    {
        match self.pending.pop_front() {
            Some(job) => {
                Received::Job(job)
            },
            None => if self.open {
                Received::Empty
            } else {
                Received::Closed
            },
        }
    }

    /// Closes the producer side. Jobs that wait stay in the queue.
    pub fn close(&mut self)
        ensures
            final(self)@ == (QueueView { open: false, ..old(self)@ }),
    {
        self.open = false;
    }

    /// The number of jobs that wait.
    pub fn len(&self) -> (len: usize)
        ensures
            len == self@.pending.len(),
    {
        self.pending.len()
    }

    /// Whether the producer side is open.
    pub fn is_open(&self) -> (open: bool)
        ensures
            open == self@.open,
    {
        self.open
    }
}

/// The number of workers in `workers` that run a job.
pub open spec fn running_in(workers: Seq<WorkerState>) -> nat
    decreases workers.len(),
{
    if workers.len() == 0 {
        0
    } else {
        running_in(workers.drop_last()) + if workers.last() == WorkerState::Running {
            1nat
        } else {
            0nat
        }
    }
}

/// What a [`WorkerPool`] holds, together with its history.
#[verifier::ext_equal]
pub struct PoolView<J> {
    /// The logger of the pool.
    pub logger: LoggerView,
    /// The state of each worker, by ordinal.
    pub workers: Seq<WorkerState>,
    /// The jobs that wait, oldest first.
    pub pending: Seq<J>,
    /// Whether the pool still accepts jobs.
    pub open: bool,
    /// Every job that the pool has accepted, in the order of acceptance.
    pub accepted: Seq<J>,
    /// For each worker that runs a job, the place of that job among the
    /// accepted ones.
    pub holds: Seq<int>,
    /// For each accepted job, how many times it was handed to a worker.
    pub starts: Seq<nat>,
    /// For each accepted job, how many times its run has ended.
    pub ends: Seq<nat>,
}

/// One thing that can happen to a pool.
pub enum Step<J> {
    /// A producer submits a job.
    Submit(J),
    /// The worker with this ordinal asks for a job.
    Receive(int),
    /// The worker with this ordinal reports the end of its job.
    Complete(int, JobOutcome),
    /// The owner closes the producer side.
    Close,
}

impl<J> PoolView<J> {
    /// A fresh pool of `size` idle workers.
    pub open spec fn init(logger: LoggerView, size: nat) -> PoolView<J> {
        PoolView {
            logger,
            workers: Seq::new(size, |i: int| WorkerState::Idle),
            pending: Seq::empty(),
            open: true,
            accepted: Seq::empty(),
            holds: Seq::new(size, |i: int| 0int),
            starts: Seq::empty(),
            ends: Seq::empty(),
        }
    }

    /// The number of workers.
    pub open spec fn size(self) -> nat {
        self.workers.len()
    }

    /// The number of jobs that run at this moment.
    pub open spec fn running(self) -> nat {
        running_in(self.workers)
    }

    /// The number of jobs that were handed to a worker so far.
    pub open spec fn delivered(self) -> int {
        self.accepted.len() - self.pending.len()
    }

    /// Whether `worker` is the ordinal of a worker in `state`.
    pub open spec fn worker_is(self, worker: int, state: WorkerState) -> bool {
        0 <= worker < self.workers.len() && self.workers[worker] == state
    }

    /// Whether `worker` runs the accepted job at the place `job`.
    pub open spec fn runs(self, worker: int, job: int) -> bool {
        self.worker_is(worker, WorkerState::Running) && self.holds[worker] == job
    }

    /// Whether every worker has stopped: teardown is complete.
    pub open spec fn terminated(self) -> bool {
        forall|i: int| 0 <= i < self.workers.len() ==> self.workers[i] == WorkerState::Stopped
    }

    /// Whether every accepted job was handed to a worker exactly once and
    /// has run to its end exactly once.
    pub open spec fn all_done(self) -> bool {
        forall|job: int|
            0 <= job < self.accepted.len() ==> self.starts[job] == 1 && self.ends[job] == 1
    }

    /// The number of steps of workers that are still to come before all
    /// accepted jobs have ended: two for a job that waits, one for a job
    /// that runs.
    pub open spec fn outstanding(self) -> nat {
        2 * self.pending.len() + self.running()
    }

    /// What holds of a pool at every moment of its life: the jobs that wait
    /// are the accepted ones that no worker was handed yet; each of the
    /// others was handed out once and either has ended once or is run by
    /// one worker; and a worker has stopped only if the pool is closed and
    /// nothing waits.
    pub open spec fn inv(self) -> bool {
        &&& self.workers.len() > 0
        &&& self.holds.len() == self.workers.len()
        &&& self.starts.len() == self.accepted.len()
        &&& self.ends.len() == self.accepted.len()
        &&& self.pending.len() <= self.accepted.len()
        &&& self.pending == self.accepted.skip(self.delivered())
        &&& forall|job: int|
            0 <= job < self.accepted.len() ==> #[trigger] self.starts[job] == (if job
                < self.delivered() {
                1nat
            } else {
                0nat
            })
        &&& forall|job: int|
            0 <= job < self.accepted.len() ==> #[trigger] self.ends[job] <= self.starts[job]
        &&& forall|worker: int|
            0 <= worker < self.workers.len() && #[trigger] self.workers[worker]
                == WorkerState::Running ==> 0 <= self.holds[worker] < self.delivered()
                && self.ends[self.holds[worker]] == 0
        &&& forall|a: int, b: int|
            self.runs(a, self.holds[a]) && self.runs(b, self.holds[b]) && a != b
                ==> #[trigger] self.holds[a] != #[trigger] self.holds[b]
        &&& forall|job: int|
            0 <= job < self.delivered() && #[trigger] self.ends[job] == 0 ==> exists|worker: int|
                #[trigger] self.runs(worker, job)
        &&& forall|i: int|
            0 <= i < self.workers.len() && self.workers[i] == WorkerState::Stopped ==> !self.open
                && self.pending.len() == 0
    }

    /// The pool after a producer has submitted `job`. A closed pool drops
    /// the job.
    pub open spec fn submit(self, job: J) -> PoolView<J> {
        if self.open {
            PoolView {
                pending: self.pending.push(job),
                accepted: self.accepted.push(job),
                starts: self.starts.push(0),
                ends: self.ends.push(0),
                ..self
            }
        } else {
            self
        }
    }

    /// The pool after `worker` has asked for a job. An idle worker gets the
    /// oldest job that waits and runs it; where none waits it stops if the
    /// pool is closed and goes on waiting if not.
    pub open spec fn receive(self, worker: int) -> PoolView<J> {
        if !self.worker_is(worker, WorkerState::Idle) {
            self
        } else if self.pending.len() > 0 {
            PoolView {
                workers: self.workers.update(worker, WorkerState::Running),
                pending: self.pending.drop_first(),
                holds: self.holds.update(worker, self.delivered()),
                starts: self.starts.update(self.delivered(), self.starts[self.delivered()] + 1),
                ..self
            }
        } else if self.open {
            self
        } else {
            PoolView { workers: self.workers.update(worker, WorkerState::Stopped), ..self }
        }
    }

    /// The pool after `worker` has reported the end of its job, however
    /// the job ended.
    pub open spec fn complete(self, worker: int) -> PoolView<J> {
        if self.worker_is(worker, WorkerState::Running) {
            PoolView {
                workers: self.workers.update(worker, WorkerState::Idle),
                ends: self.ends.update(self.holds[worker], self.ends[self.holds[worker]] + 1),
                ..self
            }
        } else {
            self
        }
    }

    /// The pool after its producer side was closed.
    pub open spec fn close(self) -> PoolView<J> {
        PoolView { open: false, ..self }
    }

    /// The pool after `step`.
    pub open spec fn next(self, step: Step<J>) -> PoolView<J> {
        match step {
            Step::Submit(job) => self.submit(job),
            Step::Receive(worker) => self.receive(worker),
            Step::Complete(worker, _) => self.complete(worker),
            Step::Close => self.close(),
        }
    }

    /// The pool after all of `steps`, taken in order.
    pub open spec fn run(self, steps: Seq<Step<J>>) -> PoolView<J>
        decreases steps.len(),
    {
        if steps.len() == 0 {
            self
        } else {
            self.run(steps.drop_last()).next(steps.last())
        }
    }

    /// Whether `step` is a step of a worker that brings the end of a job
    /// nearer: an idle worker takes a job that waits, or a worker that runs
    /// a job reports its end.
    pub open spec fn productive(self, step: Step<J>) -> bool {
        match step {
            Step::Receive(worker) => self.worker_is(worker, WorkerState::Idle)
                && self.pending.len() > 0,
            Step::Complete(worker, _) => self.worker_is(worker, WorkerState::Running),
            _ => false,
        }
    }

    /// Whether each of `steps`, taken in order from this pool on, is
    /// productive where it is taken.
    pub open spec fn all_productive(self, steps: Seq<Step<J>>) -> bool
        decreases steps.len(),
    {
        steps.len() == 0 || (self.all_productive(steps.drop_last()) && self.run(
            steps.drop_last(),
        ).productive(steps.last()))
    }

    /// What the pool writes to its log when a producer submits a job.
    pub open spec fn submit_record(self) -> Option<RecordView> {
        if self.open {
            None
        } else {
            self.logger.record(
                "Error sending job to worker pool: sending on a closed channel"@,
            )
        }
    }

    /// What `worker` writes to its log when it asks for a job.
    pub open spec fn receive_record(self, worker: int) -> Option<RecordView> {
        if !self.worker_is(worker, WorkerState::Idle) {
            None
        } else if self.pending.len() > 0 {
            worker_logger(self.logger, worker as nat).record("Received job from worker pool"@)
        } else if self.open {
            None
        } else {
            worker_logger(self.logger, worker as nat).record("Worker pool closed"@)
        }
    }

    /// What `worker` writes to its log when it reports the end of its job.
    pub open spec fn complete_record(self, worker: int, outcome: JobOutcome) -> Option<
        RecordView,
    > {
        if self.worker_is(worker, WorkerState::Running) {
            worker_record(
                worker_logger(self.logger, worker as nat),
                WorkerState::Running,
                WorkerEvent::JobEnded(outcome),
            )
        } else {
            None
        }
    }

    /// What the pool writes to its log before it waits for `worker` to
    /// exit.
    pub open spec fn join_record(self, worker: nat) -> Option<RecordView> {
        self.logger.record("Shutting down worker "@ + decimal(worker))
    }
}

/// Changing the state of one worker changes the number of running workers
/// by what that worker adds to it.
pub proof fn lemma_running_update(workers: Seq<WorkerState>, at: int, state: WorkerState)
    requires
        0 <= at < workers.len(),
    ensures
        running_in(workers.update(at, state)) + (if workers[at] == WorkerState::Running {
            1nat
        } else {
            0nat
        }) == running_in(workers) + (if state == WorkerState::Running {
            1nat
        } else {
            0nat
        }),
    decreases workers.len(),
{
    let updated = workers.update(at, state);
    if at == workers.len() - 1 {
        assert(updated.drop_last() =~= workers.drop_last());
    } else {
        assert(updated.drop_last() =~= workers.drop_last().update(at, state));
        lemma_running_update(workers.drop_last(), at, state);
    }
}

/// No more workers run than there are, and where one runs it can be named.
pub proof fn lemma_running_bounds(workers: Seq<WorkerState>)
    ensures
        running_in(workers) <= workers.len(),
        running_in(workers) > 0 ==> exists|i: int|
            0 <= i < workers.len() && #[trigger] workers[i] == WorkerState::Running,
        running_in(workers) == 0 ==> forall|i: int|
            0 <= i < workers.len() ==> #[trigger] workers[i] != WorkerState::Running,
    decreases workers.len(),
{
    if workers.len() > 0 {
        let front = workers.drop_last();
        lemma_running_bounds(front);
        if running_in(workers) > 0 {
            if workers.last() == WorkerState::Running {
                assert(workers[workers.len() - 1] == WorkerState::Running);
            } else {
                let i = choose|i: int|
                    0 <= i < front.len() && #[trigger] front[i] == WorkerState::Running;
                assert(workers[i] == WorkerState::Running);
            }
        } else {
            assert forall|i: int| 0 <= i < workers.len() implies #[trigger] workers[i]
                != WorkerState::Running by {
                if i < front.len() {
                    assert(front[i] != WorkerState::Running);
                }
            }
        }
    }
}

proof fn lemma_all_idle(workers: Seq<WorkerState>)
    requires
        forall|i: int| 0 <= i < workers.len() ==> workers[i] == WorkerState::Idle,
    ensures
        running_in(workers) == 0,
    decreases workers.len(),
{
    if workers.len() > 0 {
        lemma_all_idle(workers.drop_last());
    }
}

/// A fresh pool with at least one worker is in order: it has exactly the
/// workers it was asked for, all of them idle, and nothing waits or runs.
pub proof fn lemma_init_inv<J>(logger: LoggerView, size: nat)
    requires
        size > 0,
    ensures
        PoolView::<J>::init(logger, size).inv(),
        PoolView::<J>::init(logger, size).size() == size,
        PoolView::<J>::init(logger, size).running() == 0,
        forall|i: int|
            0 <= i < size ==> PoolView::<J>::init(logger, size).worker_is(i, WorkerState::Idle),
{
    let pool = PoolView::<J>::init(logger, size);
    lemma_all_idle(pool.workers);
    assert(pool.pending =~= pool.accepted.skip(pool.delivered()));
}

proof fn lemma_submit_preserves_inv<J>(pool: PoolView<J>, job: J)
    requires
        pool.inv(),
        pool.open,
    ensures
        pool.submit(job).inv(),
{
    let after = pool.submit(job);
    assert(after.pending =~= after.accepted.skip(after.delivered()));
    assert forall|k: int| 0 <= k < after.delivered() && #[trigger] after.ends[k] == 0 implies exists|
        w: int,
    | #[trigger] after.runs(w, k) by {
        let w = choose|w: int| #[trigger] pool.runs(w, k);
        assert(after.runs(w, k));
    }
}

proof fn lemma_deliver_preserves_inv<J>(pool: PoolView<J>, worker: int)
    requires
        pool.inv(),
        pool.worker_is(worker, WorkerState::Idle),
        pool.pending.len() > 0,
    ensures
        pool.receive(worker).inv(),
{
    let after = pool.receive(worker);
    let d = pool.delivered();
    assert(after.pending =~= after.accepted.skip(after.delivered()));
    assert forall|k: int| 0 <= k < after.delivered() && #[trigger] after.ends[k] == 0 implies exists|
        w: int,
    | #[trigger] after.runs(w, k) by {
        if k == d {
            assert(after.runs(worker, k));
        } else {
            let w = choose|w: int| #[trigger] pool.runs(w, k);
            assert(after.runs(w, k));
        }
    }
}

proof fn lemma_stop_preserves_inv<J>(pool: PoolView<J>, worker: int)
    requires
        pool.inv(),
        pool.worker_is(worker, WorkerState::Idle),
        pool.pending.len() == 0,
        !pool.open,
    ensures
        pool.receive(worker).inv(),
{
    let after = pool.receive(worker);
    assert forall|k: int| 0 <= k < after.delivered() && #[trigger] after.ends[k] == 0 implies exists|
        w: int,
    | #[trigger] after.runs(w, k) by {
        let w = choose|w: int| #[trigger] pool.runs(w, k);
        assert(after.runs(w, k));
    }
}

proof fn lemma_complete_preserves_inv<J>(pool: PoolView<J>, worker: int)
    requires
        pool.inv(),
        pool.worker_is(worker, WorkerState::Running),
    ensures
        pool.complete(worker).inv(),
{
    let after = pool.complete(worker);
    assert forall|k: int| 0 <= k < after.delivered() && #[trigger] after.ends[k] == 0 implies exists|
        w: int,
    | #[trigger] after.runs(w, k) by {
        let w = choose|w: int| #[trigger] pool.runs(w, k);
        assert(after.runs(w, k));
    }
}

/// Whatever happens to a pool that is in order leaves it in order.
pub proof fn lemma_step_preserves_inv<J>(pool: PoolView<J>, step: Step<J>)
    requires
        pool.inv(),
    ensures
        pool.next(step).inv(),
{
    match step {
        Step::Submit(job) => {
            if pool.open {
                lemma_submit_preserves_inv(pool, job);
            }
        },
        Step::Receive(worker) => {
            if pool.worker_is(worker, WorkerState::Idle) {
                if pool.pending.len() > 0 {
                    lemma_deliver_preserves_inv(pool, worker);
                } else if !pool.open {
                    lemma_stop_preserves_inv(pool, worker);
                }
            }
        },
        Step::Complete(worker, _) => {
            if pool.worker_is(worker, WorkerState::Running) {
                lemma_complete_preserves_inv(pool, worker);
            }
        },
        Step::Close => {
            let after = pool.close();
            assert forall|k: int|
                0 <= k < after.delivered() && #[trigger] after.ends[k] == 0 implies exists|w: int|
                #[trigger] after.runs(w, k) by {
                let w = choose|w: int| #[trigger] pool.runs(w, k);
                assert(after.runs(w, k));
            }
        },
    }
}

/// No step adds or removes a worker, reopens a closed pool, forgets a job
/// that was accepted, puts a job back into the queue, or takes back that a
/// job was handed out or has ended.
pub proof fn lemma_step_is_monotonic<J>(pool: PoolView<J>, step: Step<J>)
    requires
        pool.inv(),
    ensures
        pool.next(step).size() == pool.size(),
        !pool.open ==> !pool.next(step).open && pool.next(step).accepted == pool.accepted,
        pool.accepted.is_prefix_of(pool.next(step).accepted),
        pool.delivered() <= pool.next(step).delivered() <= pool.delivered() + 1,
        forall|job: int|
            0 <= job < pool.accepted.len() ==> pool.starts[job] <= #[trigger] pool.next(
                step,
            ).starts[job] && pool.ends[job] <= pool.next(step).ends[job],
        forall|i: int|
            pool.worker_is(i, WorkerState::Stopped) ==> pool.next(step).worker_is(
                i,
                WorkerState::Stopped,
            ),
{
}

/// A pool that was in order stays in order through any sequence of steps,
/// and keeps its workers.
pub proof fn lemma_run_preserves_inv<J>(pool: PoolView<J>, steps: Seq<Step<J>>)
    requires
        pool.inv(),
    ensures
        pool.run(steps).inv(),
        pool.run(steps).size() == pool.size(),
        pool.accepted.is_prefix_of(pool.run(steps).accepted),
        !pool.open ==> !pool.run(steps).open && pool.run(steps).accepted == pool.accepted,
    decreases steps.len(),
{
    if steps.len() > 0 {
        let before = pool.run(steps.drop_last());
        lemma_run_preserves_inv(pool, steps.drop_last());
        lemma_step_preserves_inv(before, steps.last());
        lemma_step_is_monotonic(before, steps.last());
    }
}

/// No job runs twice: at every moment each accepted job was handed to a
/// worker at most once, has ended at most once, and has not ended without
/// having been handed out.
pub proof fn lemma_at_most_once<J>(pool: PoolView<J>)
    requires
        pool.inv(),
    ensures
        forall|job: int|
            0 <= job < pool.accepted.len() ==> #[trigger] pool.ends[job] <= pool.starts[job] <= 1,
{
}

/// Jobs leave the queue in the order in which they were accepted: the job
/// that the next idle worker gets is the first accepted job that no worker
/// got before, and from then on that worker runs it.
pub proof fn lemma_delivery_in_order<J>(pool: PoolView<J>, worker: int)
    requires
        pool.inv(),
        pool.worker_is(worker, WorkerState::Idle),
        pool.pending.len() > 0,
    ensures
        pool.pending[0] == pool.accepted[pool.delivered()],
        pool.starts[pool.delivered()] == 0,
        pool.receive(worker).delivered() == pool.delivered() + 1,
        pool.receive(worker).accepted == pool.accepted,
        pool.receive(worker).runs(worker, pool.delivered()),
        pool.receive(worker).starts[pool.delivered()] == 1,
{
}

/// Once every worker has stopped, nothing waits, nothing runs, and every
/// job that was ever accepted was handed to a worker exactly once and has
/// ended exactly once.
pub proof fn lemma_terminated_is_drained<J>(pool: PoolView<J>)
    requires
        pool.inv(),
        pool.terminated(),
    ensures
        !pool.open,
        pool.pending.len() == 0,
        pool.running() == 0,
        pool.delivered() == pool.accepted.len(),
        pool.all_done(),
{
    lemma_running_bounds(pool.workers);
    if pool.running() > 0 {
        let i = choose|i: int|
            0 <= i < pool.workers.len() && #[trigger] pool.workers[i] == WorkerState::Running;
        assert(pool.workers[i] == WorkerState::Stopped);
    }
    assert(pool.workers[0] == WorkerState::Stopped);
    assert forall|job: int| 0 <= job < pool.accepted.len() implies pool.starts[job] == 1
        && pool.ends[job] == 1 by {
        if pool.ends[job] == 0 {
            let w = choose|w: int| #[trigger] pool.runs(w, job);
            assert(pool.workers[w] == WorkerState::Stopped);
        }
    }
}

/// No job is lost: take a fresh pool through any sequence of steps. If all
/// its workers have stopped at the end, every job that it accepted on the
/// way has run exactly once and to its end.
pub proof fn lemma_no_job_lost<J>(logger: LoggerView, size: nat, steps: Seq<Step<J>>)
    requires
        size > 0,
        PoolView::<J>::init(logger, size).run(steps).terminated(),
    ensures
        PoolView::<J>::init(logger, size).run(steps).all_done(),
        PoolView::<J>::init(logger, size).run(steps).pending.len() == 0,
        PoolView::<J>::init(logger, size).run(steps).running() == 0,
{
    let start = PoolView::<J>::init(logger, size);
    lemma_init_inv::<J>(logger, size);
    lemma_run_preserves_inv(start, steps);
    lemma_terminated_is_drained(start.run(steps));
}

/// A closed pool accepts nothing: a job that is submitted to it changes
/// nothing.
pub proof fn lemma_closed_pool_rejects<J>(pool: PoolView<J>, job: J)
    requires
        !pool.open,
    ensures
        pool.submit(job) == pool,
{
}

/// A job that fails does no harm to the pool: the worker that ran it is
/// idle again, the pool is the same as if the job had completed, and a job
/// that waits is handed to that worker when it asks.
pub proof fn lemma_failure_is_isolated<J>(pool: PoolView<J>, worker: int)
    requires
        pool.inv(),
        pool.worker_is(worker, WorkerState::Running),
    ensures
        pool.next(Step::Complete(worker, JobOutcome::Failed)) == pool.next(
            Step::Complete(worker, JobOutcome::Completed),
        ),
        pool.complete(worker).inv(),
        pool.complete(worker).worker_is(worker, WorkerState::Idle),
        pool.complete(worker).size() == pool.size(),
        pool.complete(worker).pending == pool.pending,
        pool.pending.len() > 0 ==> pool.complete(worker).receive(worker).runs(
            worker,
            pool.delivered(),
        ),
{
    lemma_complete_preserves_inv(pool, worker);
}

/// Never do more jobs run at once than the pool has workers.
pub proof fn lemma_running_at_most_size<J>(pool: PoolView<J>)
    ensures
        pool.running() <= pool.size(),
{
    lemma_running_bounds(pool.workers);
}

/// While an accepted job has not ended, some worker can take a productive
/// step: one that runs a job can report its end, or one that is idle can
/// take a job that waits.
pub proof fn lemma_progress<J>(pool: PoolView<J>, job: int)
    requires
        pool.inv(),
        0 <= job < pool.accepted.len(),
        pool.ends[job] == 0,
    ensures
        exists|step: Step<J>| #[trigger] pool.productive(step),
{
    if job < pool.delivered() {
        let w = choose|w: int| #[trigger] pool.runs(w, job);
        assert(pool.productive(Step::Complete(w, JobOutcome::Completed)));
    } else {
        lemma_running_bounds(pool.workers);
        if pool.running() > 0 {
            let i = choose|i: int|
                0 <= i < pool.workers.len() && #[trigger] pool.workers[i] == WorkerState::Running;
            assert(pool.productive(Step::Complete(i, JobOutcome::Completed)));
        } else {
            assert(pool.productive(Step::Receive(0)));
        }
    }
}

/// Each productive step uses up one of the steps that are still to come,
/// and accepts nothing.
pub proof fn lemma_work_decreases<J>(pool: PoolView<J>, step: Step<J>)
    requires
        pool.inv(),
        pool.productive(step),
    ensures
        pool.next(step).outstanding() + 1 == pool.outstanding(),
        pool.next(step).accepted == pool.accepted,
{
    match step {
        Step::Receive(worker) => {
            lemma_running_update(pool.workers, worker, WorkerState::Running);
        },
        Step::Complete(worker, _) => {
            lemma_running_update(pool.workers, worker, WorkerState::Idle);
        },
        _ => {},
    }
}

/// Where no step is still to come, every accepted job has run exactly once
/// and to its end.
pub proof fn lemma_nothing_outstanding<J>(pool: PoolView<J>)
    requires
        pool.inv(),
        pool.outstanding() == 0,
    ensures
        pool.all_done(),
{
    lemma_running_bounds(pool.workers);
    assert forall|job: int| 0 <= job < pool.accepted.len() implies pool.starts[job] == 1
        && pool.ends[job] == 1 by {
        if pool.ends[job] == 0 {
            let w = choose|w: int| #[trigger] pool.runs(w, job);
            assert(pool.workers[w] != WorkerState::Running);
        }
    }
}

/// The work runs out: while nothing is submitted, the workers can take no
/// more productive steps than [`PoolView::outstanding`] counts, and once
/// they have taken that many, every accepted job has run exactly once and
/// to its end.
pub proof fn lemma_work_runs_out<J>(pool: PoolView<J>, steps: Seq<Step<J>>)
    requires
        pool.inv(),
        pool.all_productive(steps),
    ensures
        pool.run(steps).inv(),
        pool.run(steps).outstanding() + steps.len() == pool.outstanding(),
        pool.run(steps).accepted == pool.accepted,
        steps.len() == pool.outstanding() ==> pool.run(steps).all_done(),
    decreases steps.len(),
{
    if steps.len() > 0 {
        lemma_work_runs_out(pool, steps.drop_last());
        lemma_step_preserves_inv(pool.run(steps.drop_last()), steps.last());
        lemma_work_decreases(pool.run(steps.drop_last()), steps.last());
    }
    if steps.len() == pool.outstanding() {
        lemma_nothing_outstanding(pool.run(steps));
    }
}

/// What a worker is told when it asks its pool for a job.
#[derive(Debug, PartialEq, Eq)]
pub enum Delivery<J> {
    /// Run this job outside the lock, then report its end. The record is
    /// what the worker writes to its log.
    Job(J, Option<Record>),
    /// Nothing waits and the pool is open: block until a job is submitted
    /// or the pool is closed, then ask again.
    Wait,
    /// Nothing waits and the pool is closed: the worker has stopped and its
    /// thread ends. The record is what the worker writes to its log.
    Closed(Option<Record>),
    /// The pool has no idle worker with that ordinal. Nothing has changed.
    Refused,
}

/// A fixed set of workers and the queue that feeds them.
pub struct WorkerPool<J> {
    logger: Logger,
    workers: Vec<Worker>,
    queue: JobQueue<J>,
    accepted: Ghost<Seq<J>>,
    holds: Ghost<Seq<int>>,
    starts: Ghost<Seq<nat>>,
    ends: Ghost<Seq<nat>>,
}

impl<J> View for WorkerPool<J> {
    type V = PoolView<J>;

    closed spec fn view(&self) -> PoolView<J> {
        PoolView {
            logger: self.logger@,
            workers: Seq::new(self.workers@.len(), |i: int| self.workers@[i]@.state),
            pending: self.queue@.pending,
            open: self.queue@.open,
            accepted: self.accepted@,
            holds: self.holds@,
            starts: self.starts@,
            ends: self.ends@,
        }
    }
}

impl<J> WorkerPool<J> {
    /// Whether the pool is in order: worker `i` has the ordinal `i` and
    /// logs under its own label, and [`PoolView::inv`] holds.
    pub closed spec fn wf(&self) -> bool {
        &&& forall|i: int|
            0 <= i < self.workers@.len() ==> (#[trigger] self.workers@[i])@.id == i
                && self.workers@[i]@.logger == worker_logger(self.logger@, i as nat)
        &&& self@.inv()
    }

    /// A pool that is in order satisfies [`PoolView::inv`].
    pub proof fn lemma_wf_inv(&self)
        requires
            self.wf(),
        ensures
            self@.inv(),
    {
    }

    /// A pool of `size` idle workers that logs through `logger`. A pool
    /// without workers is not built.
    pub fn build(logger: Logger, size: usize) -> (built: Result<WorkerPool<J>, Error>)
        ensures
            match built {
                Ok(pool) => size > 0 && pool.wf() && pool@ == PoolView::<J>::init(
                    logger@,
                    size as nat,
                ),
                Err(err) => size == 0 && err@ == ErrorView::EmptyPool,
            },
    {
        if size == 0 {
            return Err(Error::EmptyPool);
        }
        Ok(Self::new(logger, size))
    }

    fn new(logger: Logger, size: usize) -> (pool: WorkerPool<J>)
        requires
            size > 0,
        ensures
            pool.wf(),
            pool@ == PoolView::<J>::init(logger@, size as nat),
    {
        let mut workers: Vec<Worker> = Vec::new();
        let mut id: usize = 0;
        while id < size
            invariant
                id <= size,
                workers@.len() == id,
                forall|i: int|
                    0 <= i < id ==> (#[trigger] workers@[i])@ == (WorkerView {
                        id: i as usize,
                        logger: worker_logger(logger@, i as nat),
                        state: WorkerState::Idle,
                    }),
            decreases size - id,
        {
            workers.push(Worker::new(id, logger.clone()));
            id = id + 1;
        }
        let pool = WorkerPool {
            logger,
            workers,
            queue: JobQueue::new(),
            accepted: Ghost(Seq::empty()),
            holds: Ghost(Seq::new(size as nat, |i: int| 0int)),
            starts: Ghost(Seq::empty()),
            ends: Ghost(Seq::empty()),
        };
        proof {
            lemma_init_inv::<J>(logger@, size as nat);
        }
        pool
    }

    /// Submits `job` to the pool and returns at once. An open pool puts the
    /// job behind those that wait. A closed pool drops it and writes that to
    /// its log; the caller goes on.
    pub fn execute(&mut self, job: J) -> (record: Option<Record>)
        requires
            old(self).wf(),
        ensures
            final(self).wf(),
            final(self)@ == old(self)@.submit(job),
            record.deep_view() == old(self)@.submit_record(),
    {
        proof {
            lemma_step_preserves_inv(self@, Step::Submit(job));
        }
        match self.queue.submit(job) {
            Ok(()) => {
                proof {
                    self.accepted@ = self.accepted@.push(job);
                    self.starts@ = self.starts@.push(0);
                    self.ends@ = self.ends@.push(0);
                }
                None
            },
            Err(_) => {
                self.logger.log("Error sending job to worker pool: sending on a closed channel")
            },
        }
    }

    /// Answers the worker with the ordinal `worker`, which asks for a job.
    /// An idle worker gets the oldest job that waits and runs from then on.
    /// Where nothing waits it is told to wait while the pool is open, and
    /// stops once the pool is closed. Anyone else is refused.
    pub fn receive(&mut self, worker: usize) -> (delivery: Delivery<J>)
        requires
            old(self).wf(),
        ensures
            final(self).wf(),
            final(self)@ == old(self)@.receive(worker as int),
            match delivery {
                Delivery::Job(job, record) => {
                    &&& old(self)@.worker_is(worker as int, WorkerState::Idle)
                    &&& old(self)@.pending.len() > 0
                    &&& job == old(self)@.pending[0]
                    &&& record.deep_view() == old(self)@.receive_record(worker as int)
                },
                Delivery::Wait => {
                    &&& old(self)@.worker_is(worker as int, WorkerState::Idle)
                    &&& old(self)@.pending.len() == 0
                    &&& old(self)@.open
                },
                Delivery::Closed(record) => {
                    &&& old(self)@.worker_is(worker as int, WorkerState::Idle)
                    &&& old(self)@.pending.len() == 0
                    &&& !old(self)@.open
                    &&& record.deep_view() == old(self)@.receive_record(worker as int)
                },
                Delivery::Refused => !old(self)@.worker_is(worker as int, WorkerState::Idle),
            },
    {
        proof {
            lemma_step_preserves_inv(self@, Step::Receive(worker as int));
        }
        if worker >= self.workers.len() {
            return Delivery::Refused;
        }
        match self.workers[worker].state() {
            WorkerState::Idle => {},
            _ => {
                return Delivery::Refused;
            },
        }
        match self.queue.receive() {
            Received::Job(job) => {
                let record = self.workers[worker].handle(WorkerEvent::JobReceived);
                proof {
                    let place = old(self)@.delivered();
                    self.holds@ = self.holds@.update(worker as int, place);
                    self.starts@ = self.starts@.update(place, self.starts@[place] + 1);
                }
                assert(self@ =~= old(self)@.receive(worker as int));
                Delivery::Job(job, record)
            },
            Received::Empty => Delivery::Wait,
            Received::Closed => {
                let record = self.workers[worker].handle(WorkerEvent::QueueClosed);
                assert(self@ =~= old(self)@.receive(worker as int));
                Delivery::Closed(record)
            },
        }
    }

    /// Takes note that the job of the worker with the ordinal `worker` has
    /// ended. The worker is idle again, whether the job completed or
    /// failed. Where that worker runs no job, nothing changes.
    pub fn complete(&mut self, worker: usize, outcome: JobOutcome) -> (record: Option<Record>)
        requires
            old(self).wf(),
        ensures
            final(self).wf(),
            final(self)@ == old(self)@.complete(worker as int),
            record.deep_view() == old(self)@.complete_record(worker as int, outcome),
    {
        proof {
            lemma_step_preserves_inv(self@, Step::Complete(worker as int, outcome));
        }
        if worker >= self.workers.len() {
            return None;
        }
        match self.workers[worker].state() {
            WorkerState::Running => {},
            _ => {
                return None;
            },
        }
        let record = self.workers[worker].handle(WorkerEvent::JobEnded(outcome));
        proof {
            let place = self.holds@[worker as int];
            self.ends@ = self.ends@.update(place, self.ends@[place] + 1);
        }
        assert(self@ =~= old(self)@.complete(worker as int));
        record
    }

    /// Begins the teardown: closes the producer side, so that no job is
    /// accepted from now on and each worker stops once nothing waits.
    /// Returns, in the order of the ordinals, the workers whose exit the
    /// owner then waits for, each with what the pool writes to its log
    /// before that wait.
    pub fn shutdown(&mut self) -> (joins: Vec<(usize, Option<Record>)>)
        requires
            old(self).wf(),
        ensures
            final(self).wf(),
            final(self)@ == old(self)@.close(),
            joins@.len() == old(self)@.size(),
            forall|i: int|
                0 <= i < joins@.len() ==> (#[trigger] joins@[i]).0 == i
                    && joins@[i].1.deep_view() == old(self)@.join_record(i as nat),
    {
        proof {
            lemma_step_preserves_inv(self@, Step::Close);
        }
        self.queue.close();
        let mut joins: Vec<(usize, Option<Record>)> = Vec::new();
        let mut i: usize = 0;
        while i < self.workers.len()
            invariant
                i <= self.workers.len(),
                joins@.len() == i,
                forall|k: int|
                    0 <= k < i ==> (#[trigger] joins@[k]).0 == k && joins@[k].1.deep_view()
                        == self@.join_record(k as nat),
            decreases self.workers.len() - i,
        {
            let mut message = String::from_str("Shutting down worker ");
            push_decimal(&mut message, i as u64);
            let record = self.logger.log(message.as_str());
            joins.push((i, record));
            i = i + 1;
        }
        joins
    }

    /// The number of workers.
    pub fn size(&self) -> (size: usize)
        ensures
            size == self@.size(),
    {
        self.workers.len()
    }

    /// The number of jobs that wait.
    pub fn pending(&self) -> (pending: usize)
        ensures
            pending == self@.pending.len(),
    {
        self.queue.len()
    }

    /// Whether the pool still accepts jobs.
    pub fn is_open(&self) -> (open: bool)
        ensures
            open == self@.open,
    {
        self.queue.is_open()
    }

    /// The state of the worker with the ordinal `worker`, if there is one.
    pub fn worker_state(&self, worker: usize) -> (state: Option<WorkerState>)
        ensures
            match state {
                Some(state) => self@.worker_is(worker as int, state),
                None => worker >= self@.size(),
            },
    {
        if worker < self.workers.len() {
            Some(self.workers[worker].state())
        } else {
            None
        }
    }

    /// The number of jobs that run at this moment.
    pub fn running(&self) -> (running: usize)
        ensures
            running == self@.running(),
    {
        let mut running: usize = 0;
        let mut i: usize = 0;
        let ghost states = self@.workers;
        while i < self.workers.len()
            invariant
                i <= self.workers.len(),
                states == self@.workers,
                states.len() == self.workers.len(),
                running == running_in(states.take(i as int)),
                running <= i,
            decreases self.workers.len() - i,
        {
            assert(states.take(i + 1).drop_last() =~= states.take(i as int));
            match self.workers[i].state() {
                WorkerState::Running => {
                    running = running + 1;
                },
                _ => {},
            }
            i = i + 1;
        }
        assert(states.take(i as int) =~= states);
        running
    }

    /// Whether every worker has stopped, so that the teardown is complete.
    pub fn is_terminated(&self) -> (terminated: bool)
        ensures
            terminated == self@.terminated(),
    {
        let mut i: usize = 0;
        while i < self.workers.len()
            invariant
                i <= self.workers.len(),
                forall|k: int| 0 <= k < i ==> self@.workers[k] == WorkerState::Stopped,
            decreases self.workers.len() - i,
        {
            match self.workers[i].state() {
                WorkerState::Stopped => {},
                _ => {
                    assert(self@.workers[i as int] != WorkerState::Stopped);
                    return false;
                },
            }
            i = i + 1;
        }
        true
    }
}

} // verus!
