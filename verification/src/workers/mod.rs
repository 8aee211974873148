//! What workers do with leases.

pub mod dns;
pub mod ping;
pub mod pools;
pub mod raw;
pub mod report;
pub mod storage;
pub mod tcp;
pub mod trace;

pub use dns::{DnsWorker, HttpWorker};
pub use ping::{
    PingFailureReason, PingObservation, PingProbeOutcome, PingProtocol, PingRequest,
};
pub use pools::{TraceRuntimeError, WorkerPoolsConfig};
pub use report::WorkerReport;
pub use tcp::{TcpAttempt, TcpObservation};
pub use trace::{
    ParisFlowId, TraceHop, TraceObservation, TraceProbeOutcome, TraceProbeRequest, TraceProtocol,
    TraceStatus,
};
