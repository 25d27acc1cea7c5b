//! The decisions of the accept loop: each connection that comes in becomes
//! a job of the worker pool, and a failure to accept one is logged and
//! passed over.

use crate::error::{Error, ErrorView};
use crate::handler::Handler;
use crate::log::{Level, Logger, LoggerView, Record, RecordView};
use crate::sync::{PoolView, WorkerPool};
use vstd::prelude::*;

verus! {

/// One unit of work: a connection and the handler that serves it. The job
/// owns both.
#[derive(Debug)]
pub struct Job<S> {
    pub handler: Handler,
    pub stream: S,
}

/// What the accept loop meets when it waits for the next connection.
pub enum Incoming<S> {
    /// A connection came in and was made into this job.
    Connection(Job<S>),
    /// Accepting failed for this reason.
    Failure(Seq<char>),
}

/// What a [`TcpServer`] holds, as plain values.
#[verifier::ext_equal]
pub struct ServerView<S> {
    /// The logger of the server.
    pub logger: LoggerView,
    /// The logger of the handler that each job gets a copy of.
    pub handler: LoggerView,
    /// The worker pool.
    pub pool: PoolView<Job<S>>,
}

/// The message that is logged once the server listens on `addr`.
pub open spec fn listen_message(addr: Seq<char>) -> Seq<char> {
    "Listen address "@ + addr + " ..."@
}

/// The message that is logged when accepting a connection fails for
/// `reason`.
pub open spec fn accept_failure_message(reason: Seq<char>) -> Seq<char> {
    "Failed to accept connection: "@ + reason
}

impl<S> ServerView<S> {
    /// Whether `job` is made of `stream` and a copy of the server's
    /// handler.
    pub open spec fn wraps(self, job: Job<S>, stream: S) -> bool {
        job.stream == stream && job.handler@ == self.handler
    }

    /// The server after `job` was submitted to its pool.
    pub open spec fn dispatch(self, job: Job<S>) -> ServerView<S> {
        ServerView { pool: self.pool.submit(job), ..self }
    }

    /// The server after the accept loop has met `incoming`.
    pub open spec fn after(self, incoming: Incoming<S>) -> ServerView<S> {
        match incoming {
            Incoming::Connection(job) => self.dispatch(job),
            Incoming::Failure(_) => self,
        }
    }

    /// The server after the accept loop has met all of `incoming`, in
    /// order.
    pub open spec fn run(self, incoming: Seq<Incoming<S>>) -> ServerView<S>
        decreases incoming.len(),
    {
        if incoming.len() == 0 {
            self
        } else {
            self.run(incoming.drop_last()).after(incoming.last())
        }
    }

    /// What the server writes to its log when accepting fails for
    /// `reason`.
    pub open spec fn failure_record(self, reason: Seq<char>) -> Option<RecordView> {
        (LoggerView { level: Level::SystemError, ..self.logger }).record(
            accept_failure_message(reason),
        )
    }
}

/// The jobs among `incoming`, in order.
pub open spec fn connections<S>(incoming: Seq<Incoming<S>>) -> Seq<Job<S>>
    decreases incoming.len(),
{
    if incoming.len() == 0 {
        Seq::empty()
    } else {
        match incoming.last() {
            Incoming::Connection(job) => connections(incoming.drop_last()).push(job),
            Incoming::Failure(_) => connections(incoming.drop_last()),
        }
    }
}

/// Failures to accept do not stop the loop and leave no trace in the
/// server: while the pool is open, the jobs that it has accepted after any
/// sequence of connections and failures are those it had before, followed
/// by the connections in the order in which they came, and each of them
/// waits in the queue or was handed to a worker.
pub proof fn lemma_accept_failures_are_passed_over<S>(
    server: ServerView<S>,
    incoming: Seq<Incoming<S>>,
)
    requires
        server.pool.open,
    ensures
        server.run(incoming).pool.open,
        server.run(incoming).pool.accepted == server.pool.accepted + connections(incoming),
        server.run(incoming).pool.pending == server.pool.pending + connections(incoming),
        server.run(incoming).pool.workers == server.pool.workers,
        server.run(incoming).logger == server.logger,
        server.run(incoming).handler == server.handler,
    decreases incoming.len(),
{
    if incoming.len() > 0 {
        lemma_accept_failures_are_passed_over(server, incoming.drop_last());
        let before = server.run(incoming.drop_last());
        match incoming.last() {
            Incoming::Connection(job) => {
                assert(before.pool.accepted.push(job) =~= server.pool.accepted + connections(
                    incoming,
                ));
                assert(before.pool.pending.push(job) =~= server.pool.pending + connections(
                    incoming,
                ));
            },
            Incoming::Failure(_) => {},
        }
    }
}

/// The acceptor: it owns the worker pool and the handler, and turns what
/// the listening socket yields into jobs.
pub struct TcpServer<S> {
    logger: Logger,
    worker_pool: WorkerPool<Job<S>>,
    handler: Handler,
}

impl<S> View for TcpServer<S> {
    type V = ServerView<S>;

    closed spec fn view(&self) -> ServerView<S> {
        ServerView { logger: self.logger@, handler: self.handler@, pool: self.worker_pool@ }
    }
}

impl<S> TcpServer<S> {
    /// Whether the server is in order, which is to say that its pool is.
    pub closed spec fn wf(&self) -> bool {
        self.worker_pool.wf()
    }

    /// A server that logs through `logger`, submits its jobs to
    /// `worker_pool` and gives each of them a copy of `handler`.
    pub fn new(logger: Logger, worker_pool: WorkerPool<Job<S>>, handler: Handler) -> (server:
        TcpServer<S>)
        requires
            worker_pool.wf(),
        ensures
            server.wf(),
            server@ == (ServerView { logger: logger@, handler: handler@, pool: worker_pool@ }),
    {
        TcpServer { logger, worker_pool, handler }
    }

    /// The error with which the server gives up where the listening socket
    /// cannot be bound. `reason` is what the operating system said.
    pub fn bind_failed(&self, reason: &str) -> (err: Error)
        ensures
            err@ == ErrorView::Bind(reason@),
    {
        Error::Bind(String::from_str(reason))
    }

    /// What the server writes to its log once it listens on `addr`.
    pub fn listening(&self, addr: &str) -> (record: Option<Record>)
        ensures
            record.deep_view() == self@.logger.record(listen_message(addr@)),
    {
        let mut message = String::from_str("Listen address ");
        message.append(addr);
        message.append(" ...");
        self.logger.log(message.as_str())
    }

    /// Takes what the listening socket has yielded. A connection is made
    /// into a job with a copy of the handler and submitted to the pool. A
    /// failure is written to the log and changes nothing: the loop goes on
    /// to the next connection.
    pub fn accept(&mut self, incoming: Result<S, String>) -> (record: Option<Record>)
        requires
            old(self).wf(),
        ensures
            final(self).wf(),
            match incoming {
                Ok(stream) => {
                    &&& exists|job: Job<S>| #[trigger]
                        old(self)@.wraps(job, stream) && final(self)@ == old(self)@.dispatch(job)
                    &&& record.deep_view() == old(self)@.pool.submit_record()
                },
                Err(reason) => {
                    &&& final(self)@ == old(self)@
                    &&& record.deep_view() == old(self)@.failure_record(reason@)
                },
            },
    {
        match incoming {
            Ok(stream) => {
                let job = Job { handler: self.handler.clone(), stream };
                let record = self.worker_pool.execute(job);
                assert(old(self)@.wraps(job, stream));
                record
            },
            Err(reason) => {
                let mut message = String::from_str("Failed to accept connection: ");
                message.append(reason.as_str());
                self.logger.with_level(Level::SystemError).log(message.as_str())
            },
        }
    }

    /// The worker pool of the server.
    pub fn worker_pool(&self) -> (pool: &WorkerPool<Job<S>>)
        requires
            self.wf(),
        ensures
            pool.wf(),
            pool@ == self@.pool,
    {
        &self.worker_pool
    }

    /// The worker pool of the server, for the workers to take their steps
    /// on and for the owner to shut down.
    pub fn worker_pool_mut(&mut self) -> (pool: &mut WorkerPool<Job<S>>)
        requires
            old(self).wf(),
        ensures
            pool.wf(),
            pool@ == old(self)@.pool,
            final(pool).wf() ==> final(self).wf(),
            final(self)@ == (ServerView { pool: final(pool)@, ..old(self)@ }),
    {
        &mut self.worker_pool
    }
}

} // verus!
