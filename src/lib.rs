//! A fixed-size worker pool, as a verified dispatch core.
//!
//! The pool's lifecycle and dispatch rules live here: construction, job
//! submission onto a single FIFO queue, the worker receive loop's decisions,
//! and the shutdown protocol that sends one termination signal per worker.
//! Threads, locking and the running of closures are left to the caller, which
//! drives the core through its methods and instantiates the job type.
use vstd::prelude::*;

mod error;
mod pool;

pub use error::{zero_size_message, PoolCreationError};
pub use pool::{
    has_receiver, lemma_busy_until_job_ends, lemma_fifo_submission, lemma_jobs_leave_in_order, lemma_shutdown_complete,
    lemma_shutdown_progress, lemma_worker_isolation, stopped_count, Message, PoolView, ThreadPool,
    WorkerState,
};
