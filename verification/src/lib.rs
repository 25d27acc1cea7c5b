//! Dispatch core of a small TCP service: a fixed-size worker pool fed by a
//! shared job queue, the accept loop's decisions, and the helpers around them.
//!
//! The crate performs no I/O. Sockets, threads, the clock and the process
//! environment belong to the caller, which hands plain values in and acts on
//! the plain values it gets back.

pub mod config;
pub mod env;
pub mod error;
pub mod handler;
pub mod log;
pub mod server;
pub mod sync;
pub mod text;

pub use crate::error::Error;
pub use crate::log::Logger;
pub use crate::sync::{Worker, WorkerPool};
