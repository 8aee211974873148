//! Additive increase and multiplicative decrease of concurrency windows.

pub mod controller;
pub mod persistence;
pub mod window;

pub use controller::{
    AcquireSnapshot, AdjustmentResult, ConcurrencyController, ConcurrencyLimits,
    ConcurrencyPermit, Outcome, OutcomeStats, ScopeState, WindowSnapshot,
};
pub use persistence::{PersistedWindow, Scope};
pub use window::WindowState;
