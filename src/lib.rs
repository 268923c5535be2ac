//! A fixed-size worker pool, modelled as a verified dispatch state machine,
//! and the request routing of the small web server that feeds it.
//!
//! The [`dispatch::Dispatcher`] owns the queue of pending jobs and the state
//! of every worker, and decides what each worker does next. The threads,
//! the lock around the dispatcher and the blocking waits belong to the
//! program that drives it.
pub mod dispatch;
pub mod http;
pub mod laws;
pub mod model;
