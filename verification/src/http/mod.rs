//! The control plane's HTTP interface.

pub mod api;
pub mod error;

pub use api::{Endpoint, Route};
pub use error::{ApiError, ErrorEnvelope};
