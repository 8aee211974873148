//! The DNS proxy: its settings, and how answers are matched to requests.

use vstd::prelude::*;
use vstd::string::*;

use crate::control_plane::AgentBootstrap;
use crate::kinds::{KindMap, TaskKind};
use crate::packet::{u16_at, BytePacketBuf, PacketError, PACKET_CAPACITY};
use crate::text::{parse_unsigned, parsed};
use crate::workers::pools::WorkerPoolsConfig;

verus! {

/// Time that the upstream server has to answer if nothing else is configured, in milliseconds.
pub const DEFAULT_UPSTREAM_TIMEOUT_MS: u64 = 2500;

/// Number of requests under way at once if nothing else is configured.
pub const DEFAULT_MAX_INFLIGHT: usize = 2048;

/// The address that the proxy listens on, as text.
pub fn listen_address(value: Option<String>) -> (r: String)
    ensures
        r@ == match value {
            Some(text) => text@,
            None => "127.0.0.1:2053"@,
        },
{
    match value {
        Some(text) => text,
        None => "127.0.0.1:2053".to_string(),
    }
}

/// The address of the upstream server, as text.
pub fn upstream_address(value: Option<String>) -> (r: String)
    ensures
        r@ == match value {
            Some(text) => text@,
            None => "127.0.0.1:5354"@,
        },
{
    match value {
        Some(text) => text,
        None => "127.0.0.1:5354".to_string(),
    }
}

/// Time that the upstream server has to answer, in milliseconds.
pub fn upstream_timeout_ms(value: &Option<String>) -> (r: u64)
    ensures
        r == match value {
            Some(text) => match parsed(text@, u64::MAX as nat) {
                Some(n) => n as u64,
                None => DEFAULT_UPSTREAM_TIMEOUT_MS,
            },
            None => DEFAULT_UPSTREAM_TIMEOUT_MS,
        },
{
    match value {
        Some(text) => match parse_unsigned(text.as_str(), u64::MAX) {
            Some(n) => n,
            None => DEFAULT_UPSTREAM_TIMEOUT_MS,
        },
        None => DEFAULT_UPSTREAM_TIMEOUT_MS,
    }
}

/// Number of requests under way at once. It is at least one.
pub fn max_inflight(value: &Option<String>) -> (r: usize)
    ensures
        r == match value {
            Some(text) => match parsed(text@, usize::MAX as nat) {
                Some(n) => if n > 0 {
                    n as usize
                } else {
                    DEFAULT_MAX_INFLIGHT
                },
                None => DEFAULT_MAX_INFLIGHT,
            },
            None => DEFAULT_MAX_INFLIGHT,
        },
        r >= 1,
{
    match value {
        Some(text) => match parse_unsigned(text.as_str(), usize::MAX as u64) {
            Some(n) => if n > 0 {
                n as usize
            } else {
                DEFAULT_MAX_INFLIGHT
            },
            None => DEFAULT_MAX_INFLIGHT,
        },
        None => DEFAULT_MAX_INFLIGHT,
    }
}

/// The value of a variable of the environment.
#[derive(Debug)]
pub enum Variable {
    Present(String),
    NotPresent,
    NotUnicode,
}

/// Why the credentials in the environment cannot be used.
#[derive(Debug, Clone, Copy, PartialEq, Eq, Structural)]
pub enum BootstrapError {
    InvalidAgentId,
    AgentIdNotUnicode,
    TokenNotUnicode,
    Incomplete,
}

impl BootstrapError {
    /// The message shown to users.
    pub fn message(&self) -> (r: &'static str)
        ensures
            r@ == match self {
                BootstrapError::InvalidAgentId => "invalid AGENT_ID"@,
                BootstrapError::AgentIdNotUnicode => "AGENT_ID must be valid unicode"@,
                BootstrapError::TokenNotUnicode => "AGENT_AUTH_TOKEN must be valid unicode"@,
                BootstrapError::Incomplete =>
                    "AGENT_ID and AGENT_AUTH_TOKEN must both be set when bootstrapping"@,
            },
    {
        match self {
            BootstrapError::InvalidAgentId => "invalid AGENT_ID",
            BootstrapError::AgentIdNotUnicode => "AGENT_ID must be valid unicode",
            BootstrapError::TokenNotUnicode => "AGENT_AUTH_TOKEN must be valid unicode",
            BootstrapError::Incomplete =>
                "AGENT_ID and AGENT_AUTH_TOKEN must both be set when bootstrapping",
        }
    }
}

/// The number of the agent, if it is given.
pub open spec fn given_id(agent_id: Variable) -> Result<Option<nat>, BootstrapError> {
    match agent_id {
        Variable::Present(text) => match parsed(text@, u64::MAX as nat) {
            Some(n) => Ok(Some(n)),
            None => Err(BootstrapError::InvalidAgentId),
        },
        Variable::NotPresent => Ok(None),
        Variable::NotUnicode => Err(BootstrapError::AgentIdNotUnicode),
    }
}

/// The credentials in the environment: both the number and the token, or none.
pub fn bootstrap_from_env(agent_id: Variable, token: Variable) -> (r: Result<
    Option<AgentBootstrap>,
    BootstrapError,
>)
    ensures
        match given_id(agent_id) {
            Err(e) => r == Err::<Option<AgentBootstrap>, _>(e),
            Ok(id) => match (id, token) {
                (_, Variable::NotUnicode) => r == Err::<Option<AgentBootstrap>, _>(
                    BootstrapError::TokenNotUnicode,
                ),
                (Some(n), Variable::Present(secret)) => r is Ok && r->Ok_0 is Some
                    && r->Ok_0->0.agent_id == n && r->Ok_0->0.auth_token == secret,
                (None, Variable::NotPresent) => r is Ok && r->Ok_0 is None,
                _ => r == Err::<Option<AgentBootstrap>, _>(BootstrapError::Incomplete),
            },
        },
{
    let id: Option<u64> = match agent_id {
        Variable::Present(text) => match parse_unsigned(text.as_str(), u64::MAX) {
            Some(n) => Some(n),
            None => {
                return Err(BootstrapError::InvalidAgentId);
            },
        },
        Variable::NotPresent => None,
        Variable::NotUnicode => {
            return Err(BootstrapError::AgentIdNotUnicode);
        },
    };
    let secret: Option<String> = match token {
        Variable::Present(text) => Some(text),
        Variable::NotPresent => None,
        Variable::NotUnicode => {
            return Err(BootstrapError::TokenNotUnicode);
        },
    };
    match (id, secret) {
        (Some(agent_id), Some(auth_token)) => Ok(Some(AgentBootstrap { agent_id, auth_token })),
        (None, None) => Ok(None),
        _ => Err(BootstrapError::Incomplete),
    }
}

/// Makes the `received` bytes in `response` the answer to `request`: it carries the
/// identifier of the request, whatever the upstream server answered with.
pub fn finish_response(
    request: &BytePacketBuf,
    response: &mut BytePacketBuf,
    received: usize,
) -> (r: Result<(), PacketError>)
    ensures
        if received <= PACKET_CAPACITY {
            &&& r is Ok
            &&& final(response).len == received
            &&& final(response).pos == 0
            &&& final(response).buf@ == old(response).buf@.update(0, request.buf@[0]).update(
                1,
                request.buf@[1],
            )
        } else {
            &&& r == Err::<(), _>(PacketError::LengthExceedsBuffer)
            &&& final(response).buf@ == old(response).buf@
            &&& final(response).pos == old(response).pos
            &&& final(response).len == old(response).len
        },
{
    response.set_len(received)?;
    response.seek(0)?;
    let hi: u8 = request.buf[0];
    let lo: u8 = request.buf[1];
    response.buf[0] = hi;
    response.buf[1] = lo;
    Ok(())
}

/// An answer has the identifier of its request.
pub proof fn law_answer_keeps_request_id(request: Seq<u8>, response: Seq<u8>)
    requires
        request.len() == PACKET_CAPACITY,
        response.len() == PACKET_CAPACITY,
    ensures
        u16_at(response.update(0, request[0]).update(1, request[1]), 0) == u16_at(request, 0),
{
}

/// How many leases of each kind the agent has room for: as many as its pools are large.
pub fn worker_capacities(config: &WorkerPoolsConfig) -> (r: KindMap<usize>)
    ensures
        forall|kind: TaskKind| #[trigger]
            r@.contains_key(kind) && r@[kind] == config@.size(kind),
{
    let mut capacities: KindMap<usize> = KindMap::new();
    capacities.insert(TaskKind::Dns, config.concurrency(TaskKind::Dns));
    capacities.insert(TaskKind::Http, config.concurrency(TaskKind::Http));
    capacities.insert(TaskKind::Tcp, config.concurrency(TaskKind::Tcp));
    capacities.insert(TaskKind::Ping, config.concurrency(TaskKind::Ping));
    capacities.insert(TaskKind::Trace, config.concurrency(TaskKind::Trace));
    capacities
}

} // verus!
