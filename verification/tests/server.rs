use crokd::error::Error;
use crokd::handler::{Handler, RequestReader};
use crokd::log::{Level, Logger, Record};
use crokd::server::{Job, TcpServer};
use crokd::sync::{Delivery, JobOutcome, WorkerPool, WorkerState};

fn sys_logger() -> Logger {
    Logger::default().with("crokd")
}

fn server(workers: usize) -> TcpServer<&'static str> {
    let pool = WorkerPool::build(sys_logger().with("worker-pool").noop(), workers).unwrap();
    let handler = Handler::new(
        Logger::default()
            .with_level(Level::SystemError)
            .with("handler"),
    );
    TcpServer::new(sys_logger().with("tcp-server"), pool, handler)
}

fn take(server: &mut TcpServer<&'static str>, worker: usize) -> Job<&'static str> {
    match server.worker_pool_mut().receive(worker) {
        Delivery::Job(job, _) => job,
        _ => panic!("worker {} got no job", worker),
    }
}

#[test]
fn bind_failure_is_a_bind_error() {
    let err = server(1).bind_failed("invalid socket address");
    assert_eq!(err, Error::Bind(String::from("invalid socket address")));
    assert_eq!(err.to_string(), "bind address: invalid socket address");
}

#[test]
fn listening_is_logged_with_the_address() {
    assert_eq!(
        server(1).listening("127.0.0.1:8080"),
        Some(Record {
            level: Level::System,
            context: String::from("[crokd][tcp-server]"),
            message: String::from("Listen address 127.0.0.1:8080 ..."),
        })
    );
}

#[test]
fn accepted_connection_becomes_a_job() {
    let mut server = server(2);
    assert_eq!(server.accept(Ok("first")), None);
    assert_eq!(server.worker_pool().pending(), 1);
    assert_eq!(server.worker_pool().running(), 0);
    let job = take(&mut server, 1);
    assert_eq!(job.stream, "first");
    assert_eq!(
        job.handler.failed("x").map(|r| r.context),
        Some(String::from("[handler]"))
    );
    assert_eq!(
        server.worker_pool().worker_state(1),
        Some(WorkerState::Running)
    );
}

#[test]
fn accept_failure_is_logged_and_passed_over() {
    let mut server = server(1);
    server.accept(Ok("first"));
    let record = server.accept(Err(String::from("Too many open files (os error 24)")));
    assert_eq!(
        record,
        Some(Record {
            level: Level::SystemError,
            context: String::from("[crokd][tcp-server]"),
            message: String::from(
                "Failed to accept connection: Too many open files (os error 24)"
            ),
        })
    );
    assert_eq!(server.worker_pool().pending(), 1);
    assert!(server.worker_pool().is_open());
    assert_eq!(server.accept(Ok("second")), None);
    assert_eq!(server.worker_pool().pending(), 2);
    assert_eq!(take(&mut server, 0).stream, "first");
    server
        .worker_pool_mut()
        .complete(0, JobOutcome::Completed);
    assert_eq!(take(&mut server, 0).stream, "second");
}

#[test]
fn many_accept_failures_in_a_row_change_nothing() {
    let mut server = server(1);
    for _ in 0..100 {
        assert!(server.accept(Err(String::from("reset"))).is_some());
    }
    assert_eq!(server.worker_pool().pending(), 0);
    assert_eq!(server.worker_pool().size(), 1);
    server.accept(Ok("after"));
    assert_eq!(take(&mut server, 0).stream, "after");
}

#[test]
fn connection_after_shutdown_is_dropped_and_logged_by_the_pool() {
    let pool = WorkerPool::build(sys_logger().with("worker-pool"), 1).unwrap();
    let mut server = TcpServer::new(sys_logger(), pool, Handler::new(Logger::default()));
    server.accept(Ok("kept"));
    server.worker_pool_mut().shutdown();
    let record = server.accept(Ok("late"));
    assert_eq!(
        record,
        Some(Record {
            level: Level::System,
            context: String::from("[crokd][worker-pool]"),
            message: String::from("Error sending job to worker pool: sending on a closed channel"),
        })
    );
    assert_eq!(server.worker_pool().pending(), 1);
    assert_eq!(take(&mut server, 0).stream, "kept");
}

#[test]
fn connection_is_served_from_accept_to_response() {
    let mut server: TcpServer<Vec<u8>> = TcpServer::new(
        Logger::default().noop(),
        WorkerPool::build(Logger::default().noop(), 1).unwrap(),
        Handler::new(Logger::default().with("handler")),
    );
    server.accept(Ok(b"GET / \r\n\r\n".to_vec()));
    let job = match server.worker_pool_mut().receive(0) {
        Delivery::Job(job, _) => job,
        _ => panic!("no job"),
    };
    let mut reader = RequestReader::new();
    reader.feed(&job.stream);
    assert!(reader.is_complete());
    let reply = job.handler.execute("127.0.0.1:4000", reader);
    assert_eq!(
        reply.record.map(|r| r.render(1, 2)),
        Some(String::from(
            "1.002 SYSTEM [handler] Incoming request from 127.0.0.1:4000 {bytes=1}"
        ))
    );
    assert_eq!(reply.response, b"HTTP/1.1 200 OK\r\n\r\nHello, World!");
    server
        .worker_pool_mut()
        .complete(0, JobOutcome::Completed);
    assert_eq!(
        server.worker_pool().worker_state(0),
        Some(WorkerState::Idle)
    );
}
