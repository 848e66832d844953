//! A small two-stage worker-pool library with an event-dispatching façade.
//!
//! The core is the `pool` module: jobs are submitted to a pool of workers,
//! each executed job yields a result that is handed to a second pool of
//! watchers for post-processing, and shutdown stops the workers before the
//! watchers so that no result is lost.  The `event`, `dispatcher` and
//! `kernel` modules form a thin event-driven request-handling layer around
//! that core, and `connection` holds the pure parts of serving a connection.

pub mod connection;
pub mod dispatcher;
pub mod event;
pub mod kernel;
pub mod pool;
