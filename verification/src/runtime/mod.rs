//! Timers and request policies.

pub mod middleware;
pub mod rate_limit;
pub mod timer;

pub use timer::{ScheduledTimer, TimerError};
