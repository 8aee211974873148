//! Errors as the control plane answers them.

use vstd::prelude::*;
use vstd::string::*;

use crate::text::concat2;
use crate::workers::storage::StorageError;

verus! {

/// Status codes of answers.
pub const BAD_REQUEST: u16 = 400;

pub const UNAUTHORIZED: u16 = 401;

pub const FORBIDDEN: u16 = 403;

pub const NOT_FOUND: u16 = 404;

pub const TOO_MANY_REQUESTS: u16 = 429;

pub const INTERNAL_SERVER_ERROR: u16 = 500;

/// The body of an answer that reports an error.
#[derive(Debug)]
pub struct ErrorEnvelope {
    pub error: String,
    pub message: String,
    pub retryable: bool,
}

/// An error as it is answered. The time after which to try again is in nanoseconds.
#[derive(Debug)]
pub struct ApiError {
    pub status: u16,
    pub code: &'static str,
    pub message: String,
    pub retryable: bool,
    pub retry_after: Option<u64>,
}

/// Status, code, message and whether to try again.
pub type Answer = (u16, Seq<char>, Seq<char>, bool);

impl ApiError {
    /// Status, code, message and whether to try again.
    pub open spec fn answer(&self) -> Answer {
        (self.status, self.code@, self.message@, self.retryable)
    }

    pub fn new(status: u16, code: &'static str, message: &str, retryable: bool) -> (r: ApiError)
        ensures
            r.answer() == (status, code@, message@, retryable),
            r.code == code,
            r.retry_after is None,
    {
        ApiError { status, code, message: message.to_string(), retryable, retry_after: None }
    }

    pub fn rate_limited(endpoint: &'static str, retry_after: u64) -> (r: ApiError)
        ensures
            r.answer() == rate_limit_answer(endpoint@),
            r.retry_after == Some(retry_after),
    {
        ApiError {
            status: TOO_MANY_REQUESTS,
            code: "ERR_RATE_LIMITED",
            message: concat2("rate limit exceeded for ", endpoint),
            retryable: true,
            retry_after: Some(retry_after),
        }
    }

    pub fn with_retry_after(self, delay: u64) -> (r: ApiError)
        ensures
            r == (ApiError { retry_after: Some(delay), ..self }),
    {
        ApiError {
            status: self.status,
            code: self.code,
            message: self.message,
            retryable: self.retryable,
            retry_after: Some(delay),
        }
    }

    /// The body of the answer.
    pub fn envelope(&self) -> (r: ErrorEnvelope)
        ensures
            r.error@ == self.code@,
            r.message@ == self.message@,
            r.retryable == self.retryable,
    {
        ErrorEnvelope {
            error: self.code.to_string(),
            message: self.message.clone(),
            retryable: self.retryable,
        }
    }

    /// The whole seconds after which to try again.
    pub fn retry_after_secs(&self) -> (r: Option<u64>)
        ensures
            r == match self.retry_after {
                Some(nanos) => Some((nanos / 1_000_000_000) as u64),
                None => None,
            },
    {
        match self.retry_after {
            Some(nanos) => Some(nanos / 1_000_000_000),
            None => None,
        }
    }
}

/// The answer to a request over the limit of an endpoint.
pub open spec fn rate_limit_answer(endpoint: Seq<char>) -> Answer {
    (TOO_MANY_REQUESTS, "ERR_RATE_LIMITED"@, "rate limit exceeded for "@ + endpoint, true)
}

/// How an error of the storage is answered.
pub open spec fn storage_answer(error: StorageError) -> Answer {
    match error {
        StorageError::AgentNotFound | StorageError::LeaseNotFound | StorageError::TaskNotFound => (
            NOT_FOUND,
            "ERR_NOT_FOUND"@,
            "resource not found"@,
            false,
        ),
        StorageError::AgentRevoked => (
            FORBIDDEN,
            "ERR_FORBIDDEN"@,
            "agent has been revoked"@,
            false,
        ),
        StorageError::AgentDisabled => (FORBIDDEN, "ERR_FORBIDDEN"@, "agent is disabled"@, false),
        StorageError::Forbidden(_) => (
            UNAUTHORIZED,
            "ERR_UNAUTHORIZED"@,
            "invalid credentials"@,
            false,
        ),
        StorageError::Database(_) => (
            INTERNAL_SERVER_ERROR,
            "ERR_BACKEND"@,
            "database operation failed"@,
            true,
        ),
        StorageError::Serialization(_) => (
            INTERNAL_SERVER_ERROR,
            "ERR_BACKEND"@,
            "storage serialization error"@,
            true,
        ),
        StorageError::Other(_) => (
            INTERNAL_SERVER_ERROR,
            "ERR_BACKEND"@,
            "storage backend error"@,
            true,
        ),
    }
}

/// Answers an error of the storage.
pub fn storage_error(error: &StorageError) -> (r: ApiError)
    ensures
        r.answer() == storage_answer(*error),
        r.retry_after is None,
{
    match error {
        StorageError::AgentNotFound | StorageError::LeaseNotFound | StorageError::TaskNotFound =>
            ApiError::new(NOT_FOUND, "ERR_NOT_FOUND", "resource not found", false),
        StorageError::AgentRevoked => ApiError::new(
            FORBIDDEN,
            "ERR_FORBIDDEN",
            "agent has been revoked",
            false,
        ),
        StorageError::AgentDisabled => ApiError::new(
            FORBIDDEN,
            "ERR_FORBIDDEN",
            "agent is disabled",
            false,
        ),
        StorageError::Forbidden(_) => ApiError::new(
            UNAUTHORIZED,
            "ERR_UNAUTHORIZED",
            "invalid credentials",
            false,
        ),
        StorageError::Database(_) => ApiError::new(
            INTERNAL_SERVER_ERROR,
            "ERR_BACKEND",
            "database operation failed",
            true,
        ),
        StorageError::Serialization(_) => ApiError::new(
            INTERNAL_SERVER_ERROR,
            "ERR_BACKEND",
            "storage serialization error",
            true,
        ),
        StorageError::Other(_) => ApiError::new(
            INTERNAL_SERVER_ERROR,
            "ERR_BACKEND",
            "storage backend error",
            true,
        ),
    }
}

/// Only failures of the storage itself are worth another attempt.
pub proof fn law_only_backend_failures_are_retryable(error: StorageError)
    ensures
        ({
            let (status, code, message, retryable) = storage_answer(error);
            retryable <==> status >= 500
        }),
{
}

/// What cannot be found is answered with 404, an agent that was shut out with 403, wrong credentials
/// with 401, and a failure of the store with 500. Only the last is worth another try.
pub proof fn law_storage_errors_are_told_apart(error: StorageError)
    ensures
        ({
            let (status, code, message, retryable) = storage_answer(error);
            let absent = error is AgentNotFound || error is LeaseNotFound || error is TaskNotFound;
            let shut_out = error is AgentRevoked || error is AgentDisabled;
            let failed = error is Database || error is Serialization || error is Other;
            &&& status == 404 <==> absent
            &&& status == 403 <==> shut_out
            &&& status == 401 <==> error is Forbidden
            &&& status == 500 <==> failed
            &&& retryable <==> failed
            &&& absent ==> code == "ERR_NOT_FOUND"@
            &&& shut_out ==> code == "ERR_FORBIDDEN"@
            &&& error is Forbidden ==> code == "ERR_UNAUTHORIZED"@
            &&& failed ==> code == "ERR_BACKEND"@
        }),
{
}

} // verus!
