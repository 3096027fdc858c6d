//! A workflow scheduling engine: recurring triggers that fire task graphs,
//! and the token dataflow that decides when each task is ready to run.
pub mod messages;
pub mod queue;
pub mod schedule;
pub mod triggers;
pub mod tokens;
pub mod progress;
pub mod scheduler;
pub mod util;
