use crokd::error::Error;
use crokd::log::{Level, Logger, Record};
use crokd::sync::{
    Delivery, JobOutcome, JobQueue, Received, Worker, WorkerEvent, WorkerPool, WorkerState,
};

fn quiet() -> Logger {
    Logger::default().noop()
}

fn pool(size: usize) -> WorkerPool<u32> {
    WorkerPool::build(quiet(), size).unwrap()
}

fn states(pool: &WorkerPool<u32>) -> Vec<WorkerState> {
    (0..pool.size())
        .map(|i| pool.worker_state(i).unwrap())
        .collect()
}

fn take(pool: &mut WorkerPool<u32>, worker: usize) -> u32 {
    match pool.receive(worker) {
        Delivery::Job(job, _) => job,
        other => panic!("worker {} got {:?}", worker, other),
    }
}

#[test]
fn build_without_workers_fails() {
    let built: Result<WorkerPool<u32>, Error> = WorkerPool::build(quiet(), 0);
    assert!(matches!(built, Err(Error::EmptyPool)));
    let built: Result<WorkerPool<u32>, Error> = WorkerPool::build(Logger::default(), 0);
    assert!(matches!(built, Err(Error::EmptyPool)));
}

#[test]
fn build_yields_as_many_idle_workers_as_asked_for() {
    for size in [1usize, 2, 10, 64] {
        let pool = pool(size);
        assert_eq!(pool.size(), size);
        assert_eq!(states(&pool), vec![WorkerState::Idle; size]);
        assert_eq!(pool.worker_state(size), None);
        assert_eq!(pool.pending(), 0);
        assert_eq!(pool.running(), 0);
        assert!(pool.is_open());
        assert!(!pool.is_terminated());
    }
}

#[test]
fn execute_queues_jobs_without_running_them() {
    let mut pool = pool(2);
    for job in 0..5 {
        assert_eq!(pool.execute(job), None);
    }
    assert_eq!(pool.pending(), 5);
    assert_eq!(pool.running(), 0);
    assert_eq!(states(&pool), vec![WorkerState::Idle; 2]);
}

#[test]
fn jobs_are_handed_out_in_the_order_of_submission() {
    let mut pool = pool(3);
    for job in [30, 10, 20] {
        pool.execute(job);
    }
    assert_eq!(take(&mut pool, 2), 30);
    assert_eq!(take(&mut pool, 0), 10);
    assert_eq!(take(&mut pool, 1), 20);
    assert_eq!(pool.pending(), 0);
    assert_eq!(pool.running(), 3);
}

#[test]
fn idle_worker_waits_while_the_pool_is_open_and_empty() {
    let mut pool = pool(1);
    assert_eq!(pool.receive(0), Delivery::Wait);
    assert_eq!(pool.worker_state(0), Some(WorkerState::Idle));
    pool.execute(1);
    assert_eq!(take(&mut pool, 0), 1);
}

#[test]
fn receive_is_refused_to_anyone_but_an_idle_worker() {
    let mut pool = pool(2);
    pool.execute(1);
    pool.execute(2);
    assert_eq!(pool.receive(2), Delivery::Refused);
    assert_eq!(pool.receive(usize::MAX), Delivery::Refused);
    assert_eq!(take(&mut pool, 0), 1);
    assert_eq!(pool.receive(0), Delivery::Refused);
    assert_eq!(pool.pending(), 1);
    pool.shutdown();
    assert_eq!(take(&mut pool, 1), 2);
    pool.complete(1, JobOutcome::Completed);
    assert!(matches!(pool.receive(1), Delivery::Closed(_)));
    assert_eq!(pool.receive(1), Delivery::Refused);
}

#[test]
fn complete_is_ignored_for_a_worker_that_runs_nothing() {
    let mut pool = pool(2);
    pool.execute(1);
    assert_eq!(pool.complete(0, JobOutcome::Completed), None);
    assert_eq!(pool.complete(7, JobOutcome::Failed), None);
    assert_eq!(states(&pool), vec![WorkerState::Idle; 2]);
    assert_eq!(pool.pending(), 1);
}

#[test]
fn at_most_as_many_jobs_run_as_there_are_workers() {
    let workers = 3;
    let jobs = 10;
    let mut pool = pool(workers);
    for job in 0..jobs {
        pool.execute(job);
    }
    let mut started = Vec::new();
    let mut ended = 0;
    while ended < jobs {
        for worker in 0..workers {
            if let Delivery::Job(job, _) = pool.receive(worker) {
                started.push(job);
            }
            assert!(pool.running() <= workers);
        }
        assert_eq!(pool.running(), workers.min((jobs - ended) as usize));
        for worker in 0..workers {
            if pool.worker_state(worker) == Some(WorkerState::Running) {
                pool.complete(worker, JobOutcome::Completed);
                ended += 1;
            }
        }
    }
    assert_eq!(started, (0..jobs).collect::<Vec<u32>>());
    assert_eq!(pool.pending(), 0);
    assert_eq!(pool.running(), 0);
}

#[test]
fn every_job_runs_once_before_teardown_is_complete() {
    let mut pool = pool(2);
    let mut runs = vec![0u32; 7];
    for job in 0..4 {
        pool.execute(job);
    }
    runs[take(&mut pool, 0) as usize] += 1;
    for job in 4..7 {
        pool.execute(job);
    }
    let joins = pool.shutdown();
    assert_eq!(joins.len(), 2);
    let mut turn = 0;
    while !pool.is_terminated() {
        let worker = turn % 2;
        turn += 1;
        match pool.worker_state(worker).unwrap() {
            WorkerState::Running => {
                pool.complete(worker, JobOutcome::Completed);
            }
            WorkerState::Idle => match pool.receive(worker) {
                Delivery::Job(job, _) => runs[job as usize] += 1,
                Delivery::Closed(_) => assert_eq!(pool.pending(), 0),
                other => panic!("{:?}", other),
            },
            WorkerState::Stopped => {}
        }
    }
    assert_eq!(runs, vec![1; 7]);
    assert_eq!(pool.pending(), 0);
    assert_eq!(pool.running(), 0);
    assert_eq!(states(&pool), vec![WorkerState::Stopped; 2]);
}

#[test]
fn shutdown_closes_the_pool_and_names_the_workers_in_order() {
    let logger = Logger::default().with("worker-pool");
    let mut pool: WorkerPool<u32> = WorkerPool::build(logger, 3).unwrap();
    pool.execute(1);
    let joins = pool.shutdown();
    assert!(!pool.is_open());
    assert_eq!(pool.size(), 3);
    assert_eq!(pool.pending(), 1);
    let expected: Vec<(usize, Option<Record>)> = (0..3)
        .map(|id| {
            (
                id,
                Some(Record {
                    level: Level::System,
                    context: String::from("[worker-pool]"),
                    message: format!("Shutting down worker {}", id),
                }),
            )
        })
        .collect();
    assert_eq!(joins, expected);
}

#[test]
fn closed_pool_drops_jobs_and_says_so() {
    let mut pool: WorkerPool<u32> = WorkerPool::build(Logger::default().with("p"), 1).unwrap();
    pool.execute(1);
    pool.shutdown();
    let record = pool.execute(2);
    assert_eq!(
        record,
        Some(Record {
            level: Level::System,
            context: String::from("[p]"),
            message: String::from("Error sending job to worker pool: sending on a closed channel"),
        })
    );
    assert_eq!(pool.pending(), 1);
    assert_eq!(take(&mut pool, 0), 1);
    pool.complete(0, JobOutcome::Completed);
    assert!(matches!(pool.receive(0), Delivery::Closed(_)));
    assert!(pool.is_terminated());
    assert_eq!(pool.size(), 1);
}

#[test]
fn worker_stops_only_when_the_closed_queue_is_empty() {
    let mut pool = pool(2);
    pool.execute(1);
    pool.shutdown();
    assert_eq!(take(&mut pool, 0), 1);
    assert!(matches!(pool.receive(1), Delivery::Closed(_)));
    assert_eq!(
        states(&pool),
        vec![WorkerState::Running, WorkerState::Stopped]
    );
    assert!(!pool.is_terminated());
    pool.complete(0, JobOutcome::Completed);
    assert!(!pool.is_terminated());
    assert!(matches!(pool.receive(0), Delivery::Closed(_)));
    assert!(pool.is_terminated());
}

#[test]
fn shutdown_twice_is_shutdown_once() {
    let mut pool = pool(2);
    let first = pool.shutdown();
    let second = pool.shutdown();
    assert_eq!(first, second);
    assert!(!pool.is_open());
    assert_eq!(pool.size(), 2);
}

#[test]
fn failed_job_leaves_its_worker_in_service() {
    let mut pool = pool(1);
    pool.execute(1);
    pool.execute(2);
    assert_eq!(take(&mut pool, 0), 1);
    pool.complete(0, JobOutcome::Failed);
    assert_eq!(pool.worker_state(0), Some(WorkerState::Idle));
    assert_eq!(pool.size(), 1);
    assert_eq!(take(&mut pool, 0), 2);
    pool.complete(0, JobOutcome::Completed);
    assert_eq!(pool.worker_state(0), Some(WorkerState::Idle));
    pool.execute(3);
    assert_eq!(take(&mut pool, 0), 3);
}

#[test]
fn workers_log_under_their_own_label() {
    let logger = Logger::default().with("worker-pool");
    let mut pool: WorkerPool<u32> = WorkerPool::build(logger, 12).unwrap();
    pool.execute(1);
    pool.execute(2);
    let record = |level: Level, worker: usize, message: &str| {
        Some(Record {
            level,
            context: format!("[worker-pool][worker-{}]", worker),
            message: String::from(message),
        })
    };
    assert_eq!(
        pool.receive(11),
        Delivery::Job(1, record(Level::System, 11, "Received job from worker pool"))
    );
    assert_eq!(
        pool.complete(11, JobOutcome::Completed),
        record(Level::System, 11, "Job completed")
    );
    assert_eq!(
        pool.receive(0),
        Delivery::Job(2, record(Level::System, 0, "Received job from worker pool"))
    );
    assert_eq!(
        pool.complete(0, JobOutcome::Failed),
        record(Level::SystemError, 0, "Job failed")
    );
    pool.shutdown();
    assert_eq!(
        pool.receive(5),
        Delivery::Closed(record(Level::System, 5, "Worker pool closed"))
    );
}

#[test]
fn worker_goes_through_its_states() {
    let mut worker = Worker::new(3, Logger::default());
    assert_eq!(worker.id(), 3);
    assert_eq!(worker.state(), WorkerState::Idle);
    let record = worker.handle(WorkerEvent::JobReceived);
    assert_eq!(worker.state(), WorkerState::Running);
    assert_eq!(
        record,
        Some(Record {
            level: Level::System,
            context: String::from("[worker-3]"),
            message: String::from("Received job from worker pool"),
        })
    );
    worker.handle(WorkerEvent::JobEnded(JobOutcome::Completed));
    assert_eq!(worker.state(), WorkerState::Idle);
    worker.handle(WorkerEvent::JobReceived);
    worker.handle(WorkerEvent::JobEnded(JobOutcome::Failed));
    assert_eq!(worker.state(), WorkerState::Idle);
    worker.handle(WorkerEvent::QueueClosed);
    assert_eq!(worker.state(), WorkerState::Stopped);
}

#[test]
fn worker_ignores_events_that_do_not_fit_its_state() {
    let mut worker = Worker::new(0, Logger::default());
    assert_eq!(
        worker.handle(WorkerEvent::JobEnded(JobOutcome::Completed)),
        None
    );
    assert_eq!(worker.state(), WorkerState::Idle);
    worker.handle(WorkerEvent::JobReceived);
    assert_eq!(worker.handle(WorkerEvent::JobReceived), None);
    assert_eq!(worker.handle(WorkerEvent::QueueClosed), None);
    assert_eq!(worker.state(), WorkerState::Running);
    worker.handle(WorkerEvent::JobEnded(JobOutcome::Completed));
    worker.handle(WorkerEvent::QueueClosed);
    for event in [
        WorkerEvent::JobReceived,
        WorkerEvent::JobEnded(JobOutcome::Failed),
        WorkerEvent::QueueClosed,
    ] {
        assert_eq!(worker.handle(event), None);
        assert_eq!(worker.state(), WorkerState::Stopped);
    }
}

#[test]
fn queue_is_first_in_first_out() {
    let mut queue = JobQueue::new();
    assert!(queue.is_open());
    assert_eq!(queue.receive(), Received::Empty);
    assert_eq!(queue.submit('a'), Ok(()));
    assert_eq!(queue.submit('b'), Ok(()));
    assert_eq!(queue.len(), 2);
    assert_eq!(queue.receive(), Received::Job('a'));
    assert_eq!(queue.submit('c'), Ok(()));
    assert_eq!(queue.receive(), Received::Job('b'));
    assert_eq!(queue.receive(), Received::Job('c'));
    assert_eq!(queue.receive(), Received::Empty);
}

#[test]
fn closed_queue_hands_out_what_waits_and_takes_nothing() {
    let mut queue = JobQueue::new();
    assert_eq!(queue.submit(1), Ok(()));
    queue.close();
    assert!(!queue.is_open());
    assert_eq!(queue.submit(2), Err(2));
    assert_eq!(queue.len(), 1);
    assert_eq!(queue.receive(), Received::Job(1));
    assert_eq!(queue.receive(), Received::Closed);
    assert_eq!(queue.receive(), Received::Closed);
}
