//! A shared, one-shot delayed firing event: a deadline that commands set or
//! cancel, a scheduler that polls it, and a fan-out to a set of observers
//! that prunes those whose delivery failed.
//!
//! Time is a count of milliseconds on a monotonic clock, read by the caller.
pub mod controller;
pub mod command;
pub mod laws;

pub use controller::{
    PropulsionController, ScheduleError, SchedulerAction, POLL_INTERVAL_MS, MS_PER_SECOND,
};
pub use command::parse_seconds;
