//! What requests must bring before they are answered.

use vstd::prelude::*;
use vstd::string::*;
use vstd::utf8::*;

use crate::http::error::{
    rate_limit_answer, Answer, ApiError, BAD_REQUEST, FORBIDDEN, INTERNAL_SERVER_ERROR,
    UNAUTHORIZED,
};
use crate::runtime::rate_limit::{checked, key_of, rate_key, window_of};
use crate::text::{
    decimal_text, is_digit, law_parse_reads_decimal, lemma_decimal_digits, parse_unsigned,
    parsed,
};
use crate::workers::storage::StorageError;

pub use crate::runtime::rate_limit::{
    RateLimitError, RateLimitPolicy, RateWindow, SharedRateLimiter,
};

verus! {

/// The byte is a visible ASCII character, a space or a tab.
pub open spec fn is_visible(b: u8) -> bool {
    (32 <= b && b < 127) || b == 9
}

/// All bytes of a header are visible.
pub open spec fn is_header_text(bytes: Seq<u8>) -> bool {
    forall|i: int| 0 <= i < bytes.len() ==> is_visible(#[trigger] bytes[i])
}

/// ASCII bytes as text.
pub open spec fn text_of(bytes: Seq<u8>) -> Seq<char> {
    bytes.map_values(|b: u8| b as char)
}

/// Calls `HeaderValue::to_str`, which returns the text of a header if all its bytes are
/// visible ASCII characters, spaces or tabs. `HeaderValue::from_bytes`, which makes the header
/// of its bytes, accepts all of these.
#[verifier::external_body]
pub(crate) fn header_text(bytes: &[u8]) -> (r: Option<String>)
    ensures
        if is_header_text(bytes@) {
            r is Some && r->0@ == text_of(bytes@) && is_ascii_chars(r->0@)
        } else {
            r is None
        },
{
    let value = http::HeaderValue::from_bytes(bytes).ok()?;
    value.to_str().ok().map(|text| text.to_string())
}

/// Why a request is refused.
#[derive(Debug)]
pub struct AuthRejection {
    pub status: u16,
    pub code: &'static str,
    pub message: String,
    pub retryable: bool,
}

impl AuthRejection {
    /// Status, code, message and whether to try again.
    pub open spec fn answer(&self) -> Answer {
        (self.status, self.code@, self.message@, self.retryable)
    }

    fn new(status: u16, code: &'static str, message: &str, retryable: bool) -> (r: AuthRejection)
        ensures
            r.answer() == (status, code@, message@, retryable),
    {
        AuthRejection { status, code, message: message.to_string(), retryable }
    }
}

/// What follows from the headers of a request.
#[derive(Debug)]
pub enum AuthStep {
    /// The request needs no proof.
    Pass,
    Reject(AuthRejection),
    /// The agent must be found to have this token.
    Authenticate { agent_id: u64, token: String },
}

/// The path needs no proof of who asks.
pub open spec fn is_exempt(exempt: Seq<&'static str>, path: Seq<char>) -> bool {
    exists|i: int| 0 <= i < exempt.len() && (#[trigger] exempt[i])@ == path
}

/// The number in the header that names the agent.
pub open spec fn agent_number(header: Seq<u8>) -> Option<nat> {
    if is_header_text(header) {
        parsed(text_of(header), u64::MAX as nat)
    } else {
        None
    }
}

/// Why the headers of a request are refused, if they are.
pub open spec fn header_refusal(agent: Option<Seq<u8>>, token: Option<Seq<u8>>) -> Option<Answer> {
    match (agent, token) {
        (None, _) => Some(
            (UNAUTHORIZED, "ERR_UNAUTHORIZED"@, "missing X-Agent-Id header"@, false),
        ),
        (Some(_), None) => Some(
            (UNAUTHORIZED, "ERR_UNAUTHORIZED"@, "missing X-Agent-Token header"@, false),
        ),
        (Some(id), Some(secret)) => if agent_number(id) is None {
            Some((BAD_REQUEST, "ERR_VALIDATION"@, "X-Agent-Id must be a valid integer"@, false))
        } else if !is_header_text(secret) {
            Some((BAD_REQUEST, "ERR_VALIDATION"@, "X-Agent-Token must be valid UTF-8"@, false))
        } else {
            None
        },
    }
}

/// The bytes of a header, if it is there.
pub open spec fn header_view(header: Option<&[u8]>) -> Option<Seq<u8>> {
    match header {
        Some(bytes) => Some(bytes@),
        None => None,
    }
}

fn contains_path(exempt: &Vec<&'static str>, path: &str) -> (r: bool)
    ensures
        r == is_exempt(exempt@, path@),
{
    let wanted: String = path.to_string();
    let mut i: usize = 0;
    while i < exempt.len()
        invariant
            i <= exempt.len(),
            wanted@ == path@,
            forall|k: int| 0 <= k < i ==> (#[trigger] exempt@[k])@ != path@,
        decreases exempt.len() - i,
    {
        let known: String = exempt[i].to_string();
        if known == wanted {
            assert(exempt@[i as int]@ == path@);
            return true;
        }
        i = i + 1;
    }
    false
}

/// Decides on a request by its path and its headers.
pub fn check_headers(
    exempt: &Vec<&'static str>,
    path: &str,
    agent_header: Option<&[u8]>,
    token_header: Option<&[u8]>,
) -> (r: AuthStep)
    ensures
        if is_exempt(exempt@, path@) {
            r is Pass
        } else {
            match header_refusal(header_view(agent_header), header_view(token_header)) {
                Some(answer) => r is Reject && r->Reject_0.answer() == answer,
                None => match r {
                    AuthStep::Authenticate { agent_id, token } => {
                        &&& agent_number(agent_header->0@) == Some(agent_id as nat)
                        &&& token@ == text_of(token_header->0@)
                    },
                    _ => false,
                },
            }
        },
{
    if contains_path(exempt, path) {
        return AuthStep::Pass;
    }
    let agent: &[u8] = match agent_header {
        Some(bytes) => bytes,
        None => {
            return AuthStep::Reject(
                AuthRejection::new(
                    UNAUTHORIZED,
                    "ERR_UNAUTHORIZED",
                    "missing X-Agent-Id header",
                    false,
                ),
            );
        },
    };
    let secret: &[u8] = match token_header {
        Some(bytes) => bytes,
        None => {
            return AuthStep::Reject(
                AuthRejection::new(
                    UNAUTHORIZED,
                    "ERR_UNAUTHORIZED",
                    "missing X-Agent-Token header",
                    false,
                ),
            );
        },
    };
    let number: Option<u64> = match header_text(agent) {
        Some(text) => parse_unsigned(text.as_str(), u64::MAX),
        None => None,
    };
    let agent_id: u64 = match number {
        Some(n) => n,
        None => {
            return AuthStep::Reject(
                AuthRejection::new(
                    BAD_REQUEST,
                    "ERR_VALIDATION",
                    "X-Agent-Id must be a valid integer",
                    false,
                ),
            );
        },
    };
    match header_text(secret) {
        Some(token) => AuthStep::Authenticate { agent_id, token },
        None => AuthStep::Reject(
            AuthRejection::new(
                BAD_REQUEST,
                "ERR_VALIDATION",
                "X-Agent-Token must be valid UTF-8",
                false,
            ),
        ),
    }
}

/// How a failed proof is answered.
pub open spec fn auth_answer(error: StorageError) -> Answer {
    match error {
        StorageError::AgentNotFound => (
            UNAUTHORIZED,
            "ERR_UNAUTHORIZED"@,
            "agent credentials are unknown"@,
            false,
        ),
        StorageError::AgentRevoked => (
            FORBIDDEN,
            "ERR_FORBIDDEN"@,
            "agent has been revoked"@,
            false,
        ),
        StorageError::AgentDisabled => (FORBIDDEN, "ERR_FORBIDDEN"@, "agent is disabled"@, false),
        StorageError::Forbidden(_) => (
            UNAUTHORIZED,
            "ERR_UNAUTHORIZED"@,
            "invalid credentials"@,
            false,
        ),
        _ => (INTERNAL_SERVER_ERROR, "ERR_BACKEND"@, "authentication backend failure"@, true),
    }
}

/// Answers a failed proof.
pub fn map_auth_error(error: &StorageError) -> (r: AuthRejection)
    ensures
        r.answer() == auth_answer(*error),
{
    match error {
        StorageError::AgentNotFound => AuthRejection::new(
            UNAUTHORIZED,
            "ERR_UNAUTHORIZED",
            "agent credentials are unknown",
            false,
        ),
        StorageError::AgentRevoked => AuthRejection::new(
            FORBIDDEN,
            "ERR_FORBIDDEN",
            "agent has been revoked",
            false,
        ),
        StorageError::AgentDisabled => AuthRejection::new(
            FORBIDDEN,
            "ERR_FORBIDDEN",
            "agent is disabled",
            false,
        ),
        StorageError::Forbidden(_) => AuthRejection::new(
            UNAUTHORIZED,
            "ERR_UNAUTHORIZED",
            "invalid credentials",
            false,
        ),
        _ => AuthRejection::new(
            INTERNAL_SERVER_ERROR,
            "ERR_BACKEND",
            "authentication backend failure",
            true,
        ),
    }
}

/// A request over the limit of an endpoint. The time after which to try again is in
/// nanoseconds.
#[derive(Debug, Clone, Copy)]
pub struct RateLimitRejection {
    pub endpoint: &'static str,
    pub retry_after: u64,
}

impl RateLimitRejection {
    /// The answer.
    pub fn error(&self) -> (r: ApiError)
        ensures
            r.answer() == rate_limit_answer(self.endpoint@),
            r.retry_after == Some(self.retry_after),
    {
        ApiError::rate_limited(self.endpoint, self.retry_after)
    }
}

/// Decides at `now` whether a request of an agent to an endpoint is over the limit. Requests
/// of agents that are not known count together.
pub fn enforce_rate_limit(
    limiter: &mut SharedRateLimiter,
    endpoint: &'static str,
    policy: &RateLimitPolicy,
    agent_id: Option<u64>,
    now: u64,
) -> (r: Result<(), RateLimitRejection>)
    requires
        old(limiter).wf(),
    ensures
        final(limiter).wf(),
        ({
            let key = key_of(
                endpoint@,
                match agent_id {
                    Some(id) => id,
                    None => 0,
                },
            );
            let (result, window) = checked(window_of(old(limiter)@, key), *policy, now);
            &&& final(limiter)@ == old(limiter)@.insert(key, window)
            &&& match result {
                Ok(_) => r is Ok,
                Err(e) => r == Err::<(), _>(
                    RateLimitRejection { endpoint, retry_after: e.retry_after },
                ),
            }
        }),
{
    let client: u64 = match agent_id {
        Some(id) => id,
        None => 0,
    };
    let key: String = rate_key(endpoint, client);
    match limiter.check(key.as_str(), policy, now) {
        Ok(_) => Ok(()),
        Err(e) => Err(RateLimitRejection { endpoint, retry_after: e.retry_after }),
    }
}

/// A request without both headers is answered as unauthorized, unless its path is exempt. One
/// goes on to the check of its credentials only with a number and a readable token.
pub proof fn law_no_request_passes_unproved(agent: Option<Seq<u8>>, token: Option<Seq<u8>>)
    ensures
        agent is None || token is None ==> match header_refusal(agent, token) {
            Some((status, code, _, _)) => status == UNAUTHORIZED && code == "ERR_UNAUTHORIZED"@,
            None => false,
        },
        header_refusal(agent, token) is None <==> agent is Some && token is Some && agent_number(
            agent->0,
        ) is Some && is_header_text(token->0),
{
}

/// Credentials that are unknown or wrong are answered with 401, those of an agent that was shut out
/// with 403, and none of these is worth another try. A failure of the store itself is answered
/// with 500 and is.
pub proof fn law_failed_authentication_is_answered(error: StorageError)
    ensures
        ({
            let (status, code, message, retryable) = auth_answer(error);
            let shut_out = error is AgentRevoked || error is AgentDisabled;
            let unknown = error is AgentNotFound || error is Forbidden;
            &&& status == 403 <==> shut_out
            &&& status == 401 <==> unknown
            &&& status == 500 <==> !shut_out && !unknown
            &&& retryable <==> !shut_out && !unknown
            &&& shut_out ==> code == "ERR_FORBIDDEN"@
            &&& unknown ==> code == "ERR_UNAUTHORIZED"@
            &&& !shut_out && !unknown ==> code == "ERR_BACKEND"@
        }),
{
}

/// A request passes on if both headers are there, the first is the number of an agent and the second
/// is text. A missing header is answered with 401, a malformed one with 400.
pub proof fn law_headers_are_checked(agent: Option<Seq<u8>>, token: Option<Seq<u8>>)
    ensures
        ({
            let r = header_refusal(agent, token);
            let missing = agent is None || token is None;
            let numbered = agent is Some && (forall|i: int|
                0 <= i < agent->0.len() ==> (32 <= #[trigger] agent->0[i] < 127 || agent->0[i]
                    == 9)) && parsed(agent->0.map_values(|b: u8| b as char), u64::MAX as nat) is Some;
            let text = token is Some && forall|i: int|
                0 <= i < token->0.len() ==> (32 <= #[trigger] token->0[i] < 127 || token->0[i] == 9);
            &&& r is None <==> !missing && numbered && text
            &&& match r {
                Some((status, _, _, _)) => status == if missing {
                    401
                } else {
                    400u16
                },
                None => true,
            }
        }),
{
    if agent is Some {
        assert(is_header_text(agent->0) <==> forall|i: int|
            0 <= i < agent->0.len() ==> (32 <= #[trigger] agent->0[i] < 127 || agent->0[i] == 9))
            by {
            if is_header_text(agent->0) {
                assert forall|i: int| 0 <= i < agent->0.len() implies (32 <= #[trigger] agent->0[i]
                    < 127 || agent->0[i] == 9) by {
                    assert(is_visible(agent->0[i]));
                }
            }
        }
        assert(text_of(agent->0) == agent->0.map_values(|b: u8| b as char));
    }
    if token is Some {
        assert(is_header_text(token->0) <==> forall|i: int|
            0 <= i < token->0.len() ==> (32 <= #[trigger] token->0[i] < 127 || token->0[i] == 9))
            by {
            if is_header_text(token->0) {
                assert forall|i: int| 0 <= i < token->0.len() implies (32 <= #[trigger] token->0[i]
                    < 127 || token->0[i] == 9) by {
                    assert(is_visible(token->0[i]));
                }
            }
        }
    }
}

/// The number of an agent is the one that its header spells.
pub proof fn law_agent_number_is_read(header: Seq<u8>, n: nat)
    requires
        n <= u64::MAX,
        header.map_values(|b: u8| b as char) == decimal_text(n),
    ensures
        agent_number(header) == Some(n),
{
    let text = header.map_values(|b: u8| b as char);
    lemma_decimal_digits(n);
    law_parse_reads_decimal(n, u64::MAX as nat);
    assert forall|i: int| 0 <= i < header.len() implies is_visible(#[trigger] header[i]) by {
        assert(text[i] == header[i] as char);
        assert(is_digit(text[i]));
    }
    assert(text_of(header) == text);
}

} // verus!
