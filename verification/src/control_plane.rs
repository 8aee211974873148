//! The agent's side of the control plane protocol.

use std::collections::HashMap;

use vstd::prelude::*;
use vstd::std_specs::hash::*;
use vstd::string::*;

use crate::kinds::KindMap;
use crate::observation::Observation;
use crate::text::{concat2, decimal, decimal_text};

pub use crate::backoff::BackoffPolicy;
pub use crate::kinds::TaskKind;

verus! {

broadcast use vstd::std_specs::hash::group_hash_axioms;

/// Answer to a registration.
#[derive(Debug, Clone, PartialEq)]
pub struct RegisterResponse {
    pub agent_id: u64,
    pub lease_duration_ms: u64,
    pub heartbeat_timeout_ms: u64,
    pub auth_token: String,
}

/// Answer to a heartbeat: the time until the next one is due.
#[derive(Debug, Clone, Copy, PartialEq, Eq, Structural)]
pub struct HeartbeatResponse {
    pub agent_id: u64,
    pub next_deadline_ms: u64,
}

/// How a task is carried out.
#[derive(Debug, Clone, PartialEq)]
pub enum TaskSpec {
    Dns { query: String, server: Option<String> },
    Http { url: String, method: Option<String> },
    Tcp(TcpSpec),
    Ping(PingSpec),
    Trace(TraceSpec),
}

/// A TCP check.
#[derive(Debug, Clone, PartialEq)]
pub struct TcpSpec {
    pub host: String,
    pub port: u16,
}

/// A ping check.
#[derive(Debug, Clone, PartialEq)]
pub struct PingSpec {
    pub host: String,
    pub count: Option<u32>,
    pub interval_ms: Option<u64>,
    pub timeout_ms: Option<u64>,
    pub rate_limit_per_sec: Option<u32>,
}

/// A traceroute check.
#[derive(Debug, Clone, PartialEq)]
pub struct TraceSpec {
    pub host: String,
    pub max_hops: Option<u8>,
}

/// Outcome of a lease.
#[derive(Debug, Clone)]
pub struct LeaseReport {
    pub lease_id: u64,
    pub observations: Vec<Observation>,
}

/// A task that the agent holds for a while.
#[derive(Debug, Clone, PartialEq)]
pub struct Lease {
    pub lease_id: u64,
    pub task_id: u64,
    pub kind: TaskKind,
    pub lease_until_ms: u64,
    pub spec: TaskSpec,
}

/// Leases that were claimed.
#[derive(Debug, Clone, PartialEq)]
pub struct ClaimResponse {
    pub leases: Vec<Lease>,
}

/// The new deadline of an extended lease.
#[derive(Debug, Clone, Copy, PartialEq, Eq, Structural)]
pub struct ExtendOutcome {
    pub lease_id: u64,
    pub new_deadline_ms: u64,
}

/// Answer to a report: how many leases were acknowledged.
#[derive(Debug, Clone, Copy, PartialEq, Eq, Structural)]
pub struct ReportResponse {
    pub acknowledged: usize,
}

/// Asks for leases, as many of each kind as the agent has room for.
#[derive(Debug, Clone)]
pub struct ClaimRequest {
    pub agent_id: u64,
    pub capacities: KindMap<usize>,
}

/// Asks for more time.
#[derive(Debug, Clone, PartialEq)]
pub struct ExtendRequest {
    pub agent_id: u64,
    pub lease_ids: Vec<u64>,
    pub extend_by_ms: u64,
}

/// Reports leases that ended.
#[derive(Debug, Clone)]
pub struct ReportRequest {
    pub agent_id: u64,
    pub completed: Vec<LeaseReport>,
    pub cancelled: Vec<LeaseReport>,
}

/// Says that the agent is alive.
#[derive(Debug, Clone, Copy, PartialEq, Eq, Structural)]
pub struct HeartbeatRequest {
    pub agent_id: u64,
}

/// Asks for registration.
#[derive(Debug, Clone, PartialEq)]
pub struct RegisterRequest {
    pub hostname: Option<String>,
}

impl Default for RegisterRequest {
    fn default() -> (r: RegisterRequest)
        ensures
            r.hostname is None,
    {
        RegisterRequest { hostname: None }
    }
}

/// Why a request to the control plane failed.
#[derive(Debug)]
pub enum ControlPlaneError {
    NotRegistered,
    InvalidRegistration,
    Transport(TransportError),
}

/// Why a request did not reach the control plane, or its answer not the agent.
#[derive(Debug)]
pub enum TransportError {
    Network(String),
    Http { status: u16 },
    Serialization(String),
    InvalidEndpoint(String),
    Backend(String),
}

impl TransportError {
    pub open spec fn text(&self) -> Seq<char> {
        match self {
            TransportError::Network(e) => "network error: "@ + e@,
            TransportError::Http { status } => "unexpected status code: "@ + decimal_text(
                *status as nat,
            ),
            TransportError::Serialization(e) => "serialization error: "@ + e@,
            TransportError::InvalidEndpoint(e) => "invalid endpoint: "@ + e@,
            TransportError::Backend(e) => "backend error: "@ + e@,
        }
    }

    /// The message shown to users.
    pub fn message(&self) -> (r: String)
        ensures
            r@ == self.text(),
    {
        match self {
            TransportError::Network(e) => concat2("network error: ", e.as_str()),
            TransportError::Http { status } => concat2(
                "unexpected status code: ",
                decimal(*status as u64).as_str(),
            ),
            TransportError::Serialization(e) => concat2("serialization error: ", e.as_str()),
            TransportError::InvalidEndpoint(e) => concat2("invalid endpoint: ", e.as_str()),
            TransportError::Backend(e) => concat2("backend error: ", e.as_str()),
        }
    }
}

impl ControlPlaneError {
    pub open spec fn text(&self) -> Seq<char> {
        match self {
            ControlPlaneError::NotRegistered => "agent is not registered"@,
            ControlPlaneError::InvalidRegistration =>
                "control plane rejected registration response"@,
            ControlPlaneError::Transport(e) => "transport error: "@ + e.text(),
        }
    }

    /// The message shown to users.
    pub fn message(&self) -> (r: String)
        ensures
            r@ == self.text(),
    {
        match self {
            ControlPlaneError::NotRegistered => "agent is not registered".to_string(),
            ControlPlaneError::InvalidRegistration =>
                "control plane rejected registration response".to_string(),
            ControlPlaneError::Transport(e) => concat2("transport error: ", e.message().as_str()),
        }
    }
}

/// The status of an answer: success from 200 to 299, and an error otherwise.
pub fn check_status(status: u16) -> (r: Result<(), TransportError>)
    ensures
        r == (if 200 <= status < 300 {
            Ok(())
        } else {
            Err(TransportError::Http { status })
        }),
{
    if 200 <= status && status < 300 {
        Ok(())
    } else {
        Err(TransportError::Http { status })
    }
}

/// `Url::parse`: the normalised form of the address `text`, or the message of the error.
pub uninterp spec fn parsed_url(text: Seq<char>) -> Result<Seq<char>, Seq<char>>;

/// `Url::join`: the address that `path` stands for under the address `base`, or the message
/// of the error.
pub uninterp spec fn joined_url(base: Seq<char>, path: Seq<char>) -> Result<Seq<char>, Seq<char>>;

/// The contents of a result of texts.
pub open spec fn result_view(r: Result<String, String>) -> Result<Seq<char>, Seq<char>> {
    match r {
        Ok(text) => Ok(text@),
        Err(text) => Err(text@),
    }
}

/// Calls `reqwest::Url::parse`, and writes the address or the error with its `Display`. The
/// result depends on the text alone; what it is takes the grammar of addresses to say.
#[verifier::external_body]
fn parse_url(text: &str) -> (r: Result<String, String>)
    ensures
        result_view(r) == parsed_url(text@),
{
    match reqwest::Url::parse(text) {
        Ok(url) => Ok(url.to_string()),
        Err(err) => Err(err.to_string()),
    }
}

/// Calls `reqwest::Url::join` on the address `base`, and writes the address or the error with
/// its `Display`. The result depends on the two texts alone; what it is takes the grammar of
/// addresses to say.
#[verifier::external_body]
fn join_url(base: &str, path: &str) -> (r: Result<String, String>)
    ensures
        result_view(r) == joined_url(base@, path@),
{
    match reqwest::Url::parse(base).and_then(|url| url.join(path)) {
        Ok(url) => Ok(url.to_string()),
        Err(err) => Err(err.to_string()),
    }
}

/// An address, or why it cannot be used.
pub fn endpoint_result(address: Result<String, String>) -> (r: Result<String, TransportError>)
    ensures
        r == match address {
            Ok(text) => Ok(text),
            Err(e) => Err(TransportError::InvalidEndpoint(e)),
        },
{
    match address {
        Ok(text) => Ok(text),
        Err(e) => Err(TransportError::InvalidEndpoint(e)),
    }
}

/// Where the control plane is reached, and how the agent proves who it is.
pub struct HttpControlPlaneTransport {
    base_url: String,
    auth_headers: Option<(String, String)>,
}

impl HttpControlPlaneTransport {
    /// The address under which the control plane is reached.
    pub closed spec fn base(&self) -> Seq<char> {
        self.base_url@
    }

    /// The number and the token of the agent, if it has them.
    pub closed spec fn credentials(&self) -> Option<(Seq<char>, Seq<char>)> {
        match self.auth_headers {
            Some((agent_id, token)) => Some((agent_id@, token@)),
            None => None,
        }
    }

    pub fn new(base_url: &str) -> (r: Result<HttpControlPlaneTransport, TransportError>)
        ensures
            match parsed_url(base_url@) {
                Ok(base) => r is Ok && r->Ok_0.base() == base && r->Ok_0.credentials() is None,
                Err(e) => r is Err && r->Err_0 is InvalidEndpoint && r->Err_0->InvalidEndpoint_0@
                    == e,
            },
    {
        match endpoint_result(parse_url(base_url)) {
            Ok(base_url) => Ok(HttpControlPlaneTransport { base_url, auth_headers: None }),
            Err(e) => Err(e),
        }
    }

    /// The address of an operation.
    pub fn endpoint(&self, path: &str) -> (r: Result<String, TransportError>)
        ensures
            match joined_url(self.base(), path@) {
                Ok(address) => r is Ok && r->Ok_0@ == address,
                Err(e) => r is Err && r->Err_0 is InvalidEndpoint && r->Err_0->InvalidEndpoint_0@
                    == e,
            },
    {
        endpoint_result(join_url(self.base_url.as_str(), path))
    }

    pub fn set_auth_headers(&mut self, agent_id: String, token: String)
        ensures
            final(self).base() == old(self).base(),
            final(self).credentials() == Some((agent_id@, token@)),
    {
        self.auth_headers = Some((agent_id, token));
    }

    /// The headers by which the agent proves who it is, if it can.
    pub fn auth_headers(&self) -> (r: Vec<(&'static str, String)>)
        ensures
            match self.credentials() {
                Some((agent_id, token)) => {
                    &&& r@.len() == 2
                    &&& r@[0].0@ == "X-Agent-Id"@
                    &&& r@[0].1@ == agent_id
                    &&& r@[1].0@ == "X-Agent-Token"@
                    &&& r@[1].1@ == token
                },
                None => r@.len() == 0,
            },
    {
        let mut headers: Vec<(&'static str, String)> = Vec::new();
        if let Some((agent_id, token)) = &self.auth_headers {
            headers.push(("X-Agent-Id", agent_id.clone()));
            headers.push(("X-Agent-Token", token.clone()));
        }
        headers
    }
}

/// What the agent asks of the control plane.
#[derive(Debug, Clone, Copy, PartialEq, Eq, Hash, Structural)]
pub enum AgentOperation {
    Register,
    Heartbeat,
    Claim,
    Extend,
    Report,
}

/// Whether the agent is known to the control plane.
#[derive(Debug, Clone, Copy, PartialEq, Eq, Structural)]
pub enum Lifecycle {
    Unregistered,
    Active,
}

/// Credentials of an agent that was registered before.
#[derive(Debug, Clone)]
pub struct AgentBootstrap {
    pub agent_id: u64,
    pub auth_token: String,
}

/// How often each operation failed in a row.
#[derive(Debug, Clone, Copy, PartialEq, Eq, Structural)]
pub struct Attempts {
    pub register: u32,
    pub heartbeat: u32,
    pub claim: u32,
    pub extend: u32,
    pub report: u32,
}

impl Attempts {
    pub open spec fn of(self, op: AgentOperation) -> u32 {
        match op {
            AgentOperation::Register => self.register,
            AgentOperation::Heartbeat => self.heartbeat,
            AgentOperation::Claim => self.claim,
            AgentOperation::Extend => self.extend,
            AgentOperation::Report => self.report,
        }
    }

    pub open spec fn with(self, op: AgentOperation, n: u32) -> Attempts {
        match op {
            AgentOperation::Register => Attempts { register: n, ..self },
            AgentOperation::Heartbeat => Attempts { heartbeat: n, ..self },
            AgentOperation::Claim => Attempts { claim: n, ..self },
            AgentOperation::Extend => Attempts { extend: n, ..self },
            AgentOperation::Report => Attempts { report: n, ..self },
        }
    }

    fn get(&self, op: AgentOperation) -> (r: u32)
        ensures
            r == self.of(op),
    {
        match op {
            AgentOperation::Register => self.register,
            AgentOperation::Heartbeat => self.heartbeat,
            AgentOperation::Claim => self.claim,
            AgentOperation::Extend => self.extend,
            AgentOperation::Report => self.report,
        }
    }

    fn set(&mut self, op: AgentOperation, n: u32)
        ensures
            *final(self) == old(self).with(op, n),
    {
        match op {
            AgentOperation::Register => {
                self.register = n;
            },
            AgentOperation::Heartbeat => {
                self.heartbeat = n;
            },
            AgentOperation::Claim => {
                self.claim = n;
            },
            AgentOperation::Extend => {
                self.extend = n;
            },
            AgentOperation::Report => {
                self.report = n;
            },
        }
    }
}

/// Milliseconds in nanoseconds.
pub open spec fn millis(ms: u64) -> u128 {
    (ms * 1_000_000) as u128
}

/// The time `ms` milliseconds after `now`, in nanoseconds.
pub open spec fn after_millis(now: u64, ms: u64) -> u128 {
    (now + ms * 1_000_000) as u128
}

/// The time `ms` milliseconds after `now`, in nanoseconds.
pub(crate) fn deadline(now: u64, ms: u64) -> (r: u128)
    ensures
        r == after_millis(now, ms),
{
    now as u128 + (ms as u128) * 1_000_000
}

/// What the agent knows of its registration and of its leases. Times are in nanoseconds of
/// the process clock.
pub struct AgentRuntime {
    lifecycle: Lifecycle,
    agent_id: Option<u64>,
    heartbeat_deadline: Option<u128>,
    lease_deadlines: HashMap<u64, u128>,
    lease_duration: u128,
    heartbeat_timeout: u128,
    attempts: Attempts,
    auth_token: Option<String>,
}

/// The contents of an [`AgentRuntime`].
pub struct RuntimeView {
    pub lifecycle: Lifecycle,
    pub agent_id: Option<u64>,
    pub heartbeat_deadline: Option<u128>,
    pub leases: Map<u64, u128>,
    pub lease_duration: u128,
    pub heartbeat_timeout: u128,
    pub attempts: Attempts,
    pub auth_token: Option<Seq<char>>,
}

/// The contents of an optional text.
pub open spec fn optional_view(text: Option<String>) -> Option<Seq<char>> {
    match text {
        Some(t) => Some(t@),
        None => None,
    }
}

impl View for AgentRuntime {
    type V = RuntimeView;

    closed spec fn view(&self) -> RuntimeView {
        RuntimeView {
            lifecycle: self.lifecycle,
            agent_id: self.agent_id,
            heartbeat_deadline: self.heartbeat_deadline,
            leases: self.lease_deadlines@,
            lease_duration: self.lease_duration,
            heartbeat_timeout: self.heartbeat_timeout,
            attempts: self.attempts,
            auth_token: optional_view(self.auth_token),
        }
    }
}

/// The deadlines after `leases` were claimed at `now`, in order.
pub open spec fn claimed(deadlines: Map<u64, u128>, leases: Seq<Lease>, now: u64) -> Map<u64, u128>
    decreases leases.len(),
{
    if leases.len() == 0 {
        deadlines
    } else {
        claimed(deadlines, leases.drop_last(), now).insert(
            leases.last().lease_id,
            after_millis(now, leases.last().lease_until_ms),
        )
    }
}

/// The deadlines after `outcomes` were applied at `now`, in order. Leases that are not
/// tracked stay untracked.
pub open spec fn extended(
    deadlines: Map<u64, u128>,
    outcomes: Seq<ExtendOutcome>,
    now: u64,
) -> Map<u64, u128>
    decreases outcomes.len(),
{
    if outcomes.len() == 0 {
        deadlines
    } else {
        let before = extended(deadlines, outcomes.drop_last(), now);
        let last = outcomes.last();
        if before.contains_key(last.lease_id) {
            before.insert(last.lease_id, after_millis(now, last.new_deadline_ms))
        } else {
            before
        }
    }
}

/// Whether `id` is among the reported leases.
pub open spec fn reported(reports: Seq<LeaseReport>, id: u64) -> bool {
    exists|i: int| 0 <= i < reports.len() && (#[trigger] reports[i]).lease_id == id
}

impl RuntimeView {
    pub open spec fn new() -> RuntimeView {
        RuntimeView {
            lifecycle: Lifecycle::Unregistered,
            agent_id: None,
            heartbeat_deadline: None,
            leases: Map::empty(),
            lease_duration: 0,
            heartbeat_timeout: 0,
            attempts: Attempts { register: 0, heartbeat: 0, claim: 0, extend: 0, report: 0 },
            auth_token: None,
        }
    }

    /// An operation succeeded.
    pub open spec fn succeeded(self, op: AgentOperation) -> RuntimeView {
        RuntimeView { attempts: self.attempts.with(op, 0), ..self }
    }

    /// An operation failed.
    pub open spec fn failed(self, op: AgentOperation) -> RuntimeView {
        let n = self.attempts.of(op);
        RuntimeView {
            attempts: self.attempts.with(
                op,
                if n == u32::MAX {
                    n
                } else {
                    (n + 1) as u32
                },
            ),
            ..self
        }
    }

    /// The agent was registered at `now`.
    pub open spec fn registered(self, response: RegisterResponse, now: u64) -> RuntimeView {
        RuntimeView {
            lifecycle: Lifecycle::Active,
            agent_id: Some(response.agent_id),
            lease_duration: millis(response.lease_duration_ms),
            heartbeat_timeout: millis(response.heartbeat_timeout_ms),
            heartbeat_deadline: Some(after_millis(now, response.heartbeat_timeout_ms)),
            auth_token: Some(response.auth_token@),
            ..self
        }
    }

    /// A heartbeat was answered at `now`.
    pub open spec fn beaten(self, response: HeartbeatResponse, now: u64) -> RuntimeView {
        RuntimeView {
            heartbeat_deadline: Some(after_millis(now, response.next_deadline_ms)),
            ..self
        }
    }

    /// The leases in `completed` and `cancelled` ended.
    pub open spec fn without(self, completed: Seq<LeaseReport>, cancelled: Seq<LeaseReport>) -> RuntimeView {
        RuntimeView {
            leases: self.leases.restrict(
                Set::new(|id: u64| !reported(completed, id) && !reported(cancelled, id)),
            ),
            ..self
        }
    }
}

/// What follows an exchange with the control plane.
pub enum Exchange<T> {
    /// The operation is over.
    Done(Result<T, ControlPlaneError>),
    /// The operation is tried again after `delay` nanoseconds.
    Retry { delay: u128, error: TransportError },
}

/// What the agent knows, for others to see.
#[derive(Debug)]
pub struct AgentSnapshot {
    pub agent_id: Option<u64>,
    pub heartbeat_deadline: Option<u128>,
    pub leases: HashMap<u64, u128>,
    pub auth_token: Option<String>,
}

impl AgentRuntime {
    pub fn new() -> (r: AgentRuntime)
        ensures
            r@ == RuntimeView::new(),
    {
        AgentRuntime {
            lifecycle: Lifecycle::Unregistered,
            agent_id: None,
            heartbeat_deadline: None,
            lease_deadlines: HashMap::new(),
            lease_duration: 0,
            heartbeat_timeout: 0,
            attempts: Attempts { register: 0, heartbeat: 0, claim: 0, extend: 0, report: 0 },
            auth_token: None,
        }
    }

    pub fn with_bootstrap(bootstrap: Option<AgentBootstrap>) -> (r: AgentRuntime)
        ensures
            r@ == match bootstrap {
                None => RuntimeView::new(),
                Some(known) => RuntimeView {
                    lifecycle: Lifecycle::Active,
                    agent_id: Some(known.agent_id),
                    auth_token: Some(known.auth_token@),
                    ..RuntimeView::new()
                },
            },
    {
        let mut runtime: AgentRuntime = AgentRuntime::new();
        if let Some(known) = bootstrap {
            runtime.lifecycle = Lifecycle::Active;
            runtime.agent_id = Some(known.agent_id);
            runtime.auth_token = Some(known.auth_token);
        }
        runtime
    }

    pub fn agent_id(&self) -> (r: Result<u64, ControlPlaneError>)
        ensures
            r == match self@.agent_id {
                Some(id) => Ok(id),
                None => Err(ControlPlaneError::NotRegistered),
            },
    {
        match self.agent_id {
            Some(id) => Ok(id),
            None => Err(ControlPlaneError::NotRegistered),
        }
    }

    pub fn record_success(&mut self, op: AgentOperation)
        ensures
            final(self)@ == old(self)@.succeeded(op),
    {
        self.attempts.set(op, 0);
    }

    /// Counts a failure and returns the delay before the next attempt in nanoseconds.
    pub fn record_failure(&mut self, op: AgentOperation, policy: &BackoffPolicy) -> (r: u128)
        requires
            policy.wf(),
        ensures
            r == policy.delay(old(self)@.attempts.of(op)),
            final(self)@ == old(self)@.failed(op),
    {
        let attempts: u32 = self.attempts.get(op);
        let delay: u128 = policy.delay_for(attempts);
        self.attempts.set(op, attempts.saturating_add(1));
        delay
    }

    pub fn apply_registration(&mut self, response: &RegisterResponse, now: u64) -> (r: Result<
        (),
        ControlPlaneError,
    >)
        ensures
            if response.agent_id == 0 {
                r == Err::<(), _>(ControlPlaneError::InvalidRegistration) && final(self)@ == old(
                    self,
                )@
            } else {
                r is Ok && final(self)@ == old(self)@.registered(*response, now)
            },
    {
        if response.agent_id == 0 {
            return Err(ControlPlaneError::InvalidRegistration);
        }
        self.agent_id = Some(response.agent_id);
        self.lease_duration = (response.lease_duration_ms as u128) * 1_000_000;
        self.heartbeat_timeout = (response.heartbeat_timeout_ms as u128) * 1_000_000;
        self.heartbeat_deadline = Some(deadline(now, response.heartbeat_timeout_ms));
        self.lifecycle = Lifecycle::Active;
        self.auth_token = Some(response.auth_token.clone());
        Ok(())
    }

    pub fn apply_heartbeat(&mut self, response: &HeartbeatResponse, now: u64) -> (r: Result<
        (),
        ControlPlaneError,
    >)
        ensures
            if old(self)@.agent_id == Some(response.agent_id) {
                r is Ok && final(self)@ == old(self)@.beaten(*response, now)
            } else {
                r == Err::<(), _>(ControlPlaneError::NotRegistered) && final(self)@ == old(self)@
            },
    {
        let known: bool = match self.agent_id {
            Some(id) => id == response.agent_id,
            None => false,
        };
        if !known {
            return Err(ControlPlaneError::NotRegistered);
        }
        self.heartbeat_deadline = Some(deadline(now, response.next_deadline_ms));
        Ok(())
    }

    pub fn apply_claim(&mut self, claim: &ClaimResponse, now: u64) -> (r: Result<
        (),
        ControlPlaneError,
    >)
        ensures
            r is Ok,
            final(self)@ == (RuntimeView {
                leases: claimed(old(self)@.leases, claim.leases@, now),
                ..old(self)@
            }),
    {
        let ghost all = claim.leases@;
        let mut i: usize = 0;
        while i < claim.leases.len()
            invariant
                i <= claim.leases.len(),
                all == claim.leases@,
                self@ == (RuntimeView {
                    leases: claimed(old(self)@.leases, all.take(i as int), now),
                    ..old(self)@
                }),
            decreases claim.leases.len() - i,
        {
            let lease: &Lease = &claim.leases[i];
            self.lease_deadlines.insert(lease.lease_id, deadline(now, lease.lease_until_ms));
            assert(all.take(i + 1).drop_last() =~= all.take(i as int));
            i = i + 1;
        }
        assert(all.take(i as int) =~= all);
        Ok(())
    }

    pub fn apply_extend(&mut self, outcomes: &[ExtendOutcome], now: u64) -> (r: Result<
        (),
        ControlPlaneError,
    >)
        ensures
            r is Ok,
            final(self)@ == (RuntimeView {
                leases: extended(old(self)@.leases, outcomes@, now),
                ..old(self)@
            }),
    {
        let ghost all = outcomes@;
        let mut i: usize = 0;
        while i < outcomes.len()
            invariant
                i <= outcomes.len(),
                all == outcomes@,
                self@ == (RuntimeView {
                    leases: extended(old(self)@.leases, all.take(i as int), now),
                    ..old(self)@
                }),
            decreases outcomes.len() - i,
        {
            let outcome: ExtendOutcome = outcomes[i];
            if self.lease_deadlines.contains_key(&outcome.lease_id) {
                self.lease_deadlines.insert(
                    outcome.lease_id,
                    deadline(now, outcome.new_deadline_ms),
                );
            }
            assert(all.take(i + 1).drop_last() =~= all.take(i as int));
            i = i + 1;
        }
        assert(all.take(i as int) =~= all);
        Ok(())
    }

    fn forget(&mut self, reports: &[LeaseReport])
        ensures
            final(self)@ == (RuntimeView {
                leases: old(self)@.leases.restrict(Set::new(|id: u64| !reported(reports@, id))),
                ..old(self)@
            }),
    {
        let ghost all = reports@;
        let mut i: usize = 0;
        assert(self@.leases =~= old(self)@.leases.restrict(
            Set::new(|id: u64| !reported(all.take(0), id)),
        ));
        while i < reports.len()
            invariant
                i <= reports.len(),
                all == reports@,
                self@ == (RuntimeView {
                    leases: old(self)@.leases.restrict(
                        Set::new(|id: u64| !reported(all.take(i as int), id)),
                    ),
                    ..old(self)@
                }),
            decreases reports.len() - i,
        {
            let gone: u64 = reports[i].lease_id;
            self.lease_deadlines.remove(&gone);
            proof {
                let was = all.take(i as int);
                let is = all.take(i + 1);
                assert forall|id: u64| reported(is, id) == (reported(was, id) || id == gone) by {
                    if reported(was, id) {
                        let k = choose|k: int|
                            0 <= k < was.len() && (#[trigger] was[k]).lease_id == id;
                        assert(is[k].lease_id == id);
                    }
                    if id == gone {
                        assert(is[i as int].lease_id == id);
                    }
                    if reported(is, id) && id != gone {
                        let k = choose|k: int| 0 <= k < is.len() && (#[trigger] is[k]).lease_id == id;
                        assert(was[k].lease_id == id);
                    }
                }
                assert(self@.leases =~= old(self)@.leases.restrict(
                    Set::new(|id: u64| !reported(is, id)),
                ));
            }
            i = i + 1;
        }
        assert(all.take(i as int) =~= all);
    }

    pub fn apply_report(&mut self, completed: &[LeaseReport], cancelled: &[LeaseReport]) -> (r:
        Result<(), ControlPlaneError>)
        ensures
            r is Ok,
            final(self)@ == old(self)@.without(completed@, cancelled@),
    {
        self.forget(completed);
        self.forget(cancelled);
        assert(self@.leases =~= old(self)@.without(completed@, cancelled@).leases);
        Ok(())
    }

    /// Takes the answer to a registration.
    pub fn settle_register(
        &mut self,
        response: Result<RegisterResponse, TransportError>,
        policy: &BackoffPolicy,
        now: u64,
    ) -> (r: Exchange<RegisterResponse>)
        requires
            policy.wf(),
        ensures
            match response {
                Ok(payload) => if payload.agent_id == 0 {
                    &&& r == Exchange::<RegisterResponse>::Done(
                        Err(ControlPlaneError::InvalidRegistration),
                    )
                    &&& final(self)@ == old(self)@
                } else {
                    &&& r == Exchange::<RegisterResponse>::Done(Ok(payload))
                    &&& final(self)@ == old(self)@.registered(payload, now).succeeded(
                        AgentOperation::Register,
                    )
                },
                Err(error) => {
                    &&& r == (Exchange::<RegisterResponse>::Retry {
                        delay: policy.delay(
                            old(self)@.attempts.of(AgentOperation::Register),
                        ),
                        error,
                    })
                    &&& final(self)@ == old(self)@.failed(AgentOperation::Register)
                },
            },
    {
        match response {
            Ok(payload) => match self.apply_registration(&payload, now) {
                Ok(_) => {
                    self.record_success(AgentOperation::Register);
                    Exchange::Done(Ok(payload))
                },
                Err(e) => Exchange::Done(Err(e)),
            },
            Err(error) => {
                let delay: u128 = self.record_failure(AgentOperation::Register, policy);
                Exchange::Retry { delay, error }
            },
        }
    }

    /// Takes the answer to a heartbeat.
    pub fn settle_heartbeat(
        &mut self,
        response: Result<HeartbeatResponse, TransportError>,
        policy: &BackoffPolicy,
        now: u64,
    ) -> (r: Exchange<HeartbeatResponse>)
        requires
            policy.wf(),
        ensures
            match response {
                Ok(payload) => if old(self)@.agent_id != Some(payload.agent_id) {
                    &&& r == Exchange::<HeartbeatResponse>::Done(
                        Err(ControlPlaneError::NotRegistered),
                    )
                    &&& final(self)@ == old(self)@
                } else {
                    &&& r == Exchange::<HeartbeatResponse>::Done(Ok(payload))
                    &&& final(self)@ == old(self)@.beaten(payload, now).succeeded(
                        AgentOperation::Heartbeat,
                    )
                },
                Err(error) => {
                    &&& r == (Exchange::<HeartbeatResponse>::Retry {
                        delay: policy.delay(
                            old(self)@.attempts.of(AgentOperation::Heartbeat),
                        ),
                        error,
                    })
                    &&& final(self)@ == old(self)@.failed(AgentOperation::Heartbeat)
                },
            },
    {
        match response {
            Ok(payload) => match self.apply_heartbeat(&payload, now) {
                Ok(_) => {
                    self.record_success(AgentOperation::Heartbeat);
                    Exchange::Done(Ok(payload))
                },
                Err(e) => Exchange::Done(Err(e)),
            },
            Err(error) => {
                let delay: u128 = self.record_failure(AgentOperation::Heartbeat, policy);
                Exchange::Retry { delay, error }
            },
        }
    }

    /// Takes the answer to a claim.
    pub fn settle_claim(
        &mut self,
        response: Result<ClaimResponse, TransportError>,
        policy: &BackoffPolicy,
        now: u64,
    ) -> (r: Exchange<ClaimResponse>)
        requires
            policy.wf(),
        ensures
            match response {
                Ok(payload) => {
                    &&& r == Exchange::<ClaimResponse>::Done(Ok(payload))
                    &&& final(self)@ == (RuntimeView {
                        leases: claimed(old(self)@.leases, payload.leases@, now),
                        ..old(self)@
                    }).succeeded(AgentOperation::Claim)
                },
                Err(error) => {
                    &&& r == (Exchange::<ClaimResponse>::Retry {
                        delay: policy.delay(old(self)@.attempts.of(AgentOperation::Claim)),
                        error,
                    })
                    &&& final(self)@ == old(self)@.failed(AgentOperation::Claim)
                },
            },
    {
        match response {
            Ok(payload) => match self.apply_claim(&payload, now) {
                Ok(_) => {
                    self.record_success(AgentOperation::Claim);
                    Exchange::Done(Ok(payload))
                },
                Err(e) => Exchange::Done(Err(e)),
            },
            Err(error) => {
                let delay: u128 = self.record_failure(AgentOperation::Claim, policy);
                Exchange::Retry { delay, error }
            },
        }
    }

    /// Takes the answer to an extension.
    pub fn settle_extend(
        &mut self,
        response: Result<Vec<ExtendOutcome>, TransportError>,
        policy: &BackoffPolicy,
        now: u64,
    ) -> (r: Exchange<Vec<ExtendOutcome>>)
        requires
            policy.wf(),
        ensures
            match response {
                Ok(payload) => {
                    &&& r == Exchange::<Vec<ExtendOutcome>>::Done(Ok(payload))
                    &&& final(self)@ == (RuntimeView {
                        leases: extended(old(self)@.leases, payload@, now),
                        ..old(self)@
                    }).succeeded(AgentOperation::Extend)
                },
                Err(error) => {
                    &&& r == (Exchange::<Vec<ExtendOutcome>>::Retry {
                        delay: policy.delay(old(self)@.attempts.of(AgentOperation::Extend)),
                        error,
                    })
                    &&& final(self)@ == old(self)@.failed(AgentOperation::Extend)
                },
            },
    {
        match response {
            Ok(payload) => match self.apply_extend(payload.as_slice(), now) {
                Ok(_) => {
                    self.record_success(AgentOperation::Extend);
                    Exchange::Done(Ok(payload))
                },
                Err(e) => Exchange::Done(Err(e)),
            },
            Err(error) => {
                let delay: u128 = self.record_failure(AgentOperation::Extend, policy);
                Exchange::Retry { delay, error }
            },
        }
    }

    /// Takes the answer to a report.
    pub fn settle_report(
        &mut self,
        request: &ReportRequest,
        response: Result<ReportResponse, TransportError>,
        policy: &BackoffPolicy,
    ) -> (r: Exchange<ReportResponse>)
        requires
            policy.wf(),
        ensures
            match response {
                Ok(payload) => {
                    &&& r == Exchange::<ReportResponse>::Done(Ok(payload))
                    &&& final(self)@ == old(self)@.without(
                        request.completed@,
                        request.cancelled@,
                    ).succeeded(AgentOperation::Report)
                },
                Err(error) => {
                    &&& r == (Exchange::<ReportResponse>::Retry {
                        delay: policy.delay(old(self)@.attempts.of(AgentOperation::Report)),
                        error,
                    })
                    &&& final(self)@ == old(self)@.failed(AgentOperation::Report)
                },
            },
    {
        match response {
            Ok(payload) => match self.apply_report(
                request.completed.as_slice(),
                request.cancelled.as_slice(),
            ) {
                Ok(_) => {
                    self.record_success(AgentOperation::Report);
                    Exchange::Done(Ok(payload))
                },
                Err(e) => Exchange::Done(Err(e)),
            },
            Err(error) => {
                let delay: u128 = self.record_failure(AgentOperation::Report, policy);
                Exchange::Retry { delay, error }
            },
        }
    }

    /// The heartbeat of a registered agent.
    pub fn heartbeat_request(&self) -> (r: Result<HeartbeatRequest, ControlPlaneError>)
        ensures
            r == match self@.agent_id {
                Some(agent_id) => Ok(HeartbeatRequest { agent_id }),
                None => Err(ControlPlaneError::NotRegistered),
            },
    {
        let agent_id: u64 = self.agent_id()?;
        Ok(HeartbeatRequest { agent_id })
    }

    /// The claim of a registered agent.
    pub fn claim_request(&self, capacities: &KindMap<usize>) -> (r: Result<
        ClaimRequest,
        ControlPlaneError,
    >)
        ensures
            match self@.agent_id {
                Some(agent_id) => r is Ok && r->Ok_0.agent_id == agent_id && r->Ok_0.capacities@
                    == capacities@,
                None => r == Err::<ClaimRequest, _>(ControlPlaneError::NotRegistered),
            },
    {
        let agent_id: u64 = self.agent_id()?;
        Ok(ClaimRequest { agent_id, capacities: capacities.copy() })
    }

    /// The extension of leases of a registered agent by `extend_by` nanoseconds.
    pub fn extend_request(&self, lease_ids: Vec<u64>, extend_by: u128) -> (r: Result<
        ExtendRequest,
        ControlPlaneError,
    >)
        ensures
            match self@.agent_id {
                Some(agent_id) => r == Ok::<_, ControlPlaneError>(
                    ExtendRequest {
                        agent_id,
                        lease_ids,
                        extend_by_ms: (extend_by / 1_000_000 % 0x1_0000_0000_0000_0000) as u64,
                    },
                ),
                None => r == Err::<ExtendRequest, _>(ControlPlaneError::NotRegistered),
            },
    {
        let agent_id: u64 = self.agent_id()?;
        let extend_by_ms: u64 = (extend_by / 1_000_000 % 0x1_0000_0000_0000_0000) as u64;
        Ok(ExtendRequest { agent_id, lease_ids, extend_by_ms })
    }

    /// The report of a registered agent.
    pub fn report_request(&self, completed: Vec<LeaseReport>, cancelled: Vec<LeaseReport>) -> (r:
        Result<ReportRequest, ControlPlaneError>)
        ensures
            r == report_of(self@, completed, cancelled),
    {
        let agent_id: u64 = self.agent_id()?;
        Ok(ReportRequest { agent_id, completed, cancelled })
    }

    /// What the agent knows.
    pub fn snapshot(&self) -> (r: AgentSnapshot)
        ensures
            r.agent_id == self@.agent_id,
            r.heartbeat_deadline == self@.heartbeat_deadline,
            r.leases@ == self@.leases,
            optional_view(r.auth_token) == self@.auth_token,
    {
        AgentSnapshot {
            agent_id: self.agent_id,
            heartbeat_deadline: self.heartbeat_deadline,
            leases: self.lease_deadlines.clone(),
            auth_token: self.auth_token.clone(),
        }
    }
}

/// Every lease that was claimed is tracked, and those tracked before still are. A lease that
/// was claimed once has the time that the claim gave it.
pub proof fn law_claim_tracks(deadlines: Map<u64, u128>, leases: Seq<Lease>, now: u64, i: int)
    requires
        0 <= i < leases.len(),
    ensures
        claimed(deadlines, leases, now).contains_key(leases[i].lease_id),
        deadlines.dom().subset_of(claimed(deadlines, leases, now).dom()),
        (forall|k: int|
            i < k < leases.len() ==> (#[trigger] leases[k]).lease_id != leases[i].lease_id)
            ==> claimed(deadlines, leases, now)[leases[i].lease_id] == after_millis(
            now,
            leases[i].lease_until_ms,
        ),
    decreases leases.len(),
{
    lemma_claim_keeps(deadlines, leases, now);
    if i < leases.len() - 1 {
        let init = leases.drop_last();
        law_claim_tracks(deadlines, init, now, i);
        assert(init[i] == leases[i]);
        assert(forall|k: int| i < k < init.len() ==> #[trigger] init[k] == leases[k]);
        assert(leases.last() == leases[leases.len() - 1]);
    }
}

proof fn lemma_claim_keeps(deadlines: Map<u64, u128>, leases: Seq<Lease>, now: u64)
    ensures
        deadlines.dom().subset_of(claimed(deadlines, leases, now).dom()),
    decreases leases.len(),
{
    if leases.len() > 0 {
        lemma_claim_keeps(deadlines, leases.drop_last(), now);
    }
}

/// An extension neither starts nor stops the tracking of a lease.
pub proof fn law_extend_keeps_leases(deadlines: Map<u64, u128>, outcomes: Seq<ExtendOutcome>, now: u64)
    ensures
        extended(deadlines, outcomes, now).dom() == deadlines.dom(),
    decreases outcomes.len(),
{
    if outcomes.len() > 0 {
        law_extend_keeps_leases(deadlines, outcomes.drop_last(), now);
        assert(extended(deadlines, outcomes, now).dom() =~= deadlines.dom());
    }
}

/// What a report of the agent is: its number and the leases as they were given, if it is
/// registered.
pub open spec fn report_of(
    runtime: RuntimeView,
    completed: Vec<LeaseReport>,
    cancelled: Vec<LeaseReport>,
) -> Result<ReportRequest, ControlPlaneError> {
    match runtime.agent_id {
        Some(agent_id) => Ok(ReportRequest { agent_id, completed, cancelled }),
        None => Err(ControlPlaneError::NotRegistered),
    }
}

/// What the agent knows after an operation failed `n` times.
pub open spec fn failed_times(runtime: RuntimeView, op: AgentOperation, n: nat) -> RuntimeView
    decreases n,
{
    if n == 0 {
        runtime
    } else {
        failed_times(runtime, op, (n - 1) as nat).failed(op)
    }
}

proof fn lemma_failures_keep(runtime: RuntimeView, op: AgentOperation, n: nat)
    ensures
        failed_times(runtime, op, n).leases == runtime.leases,
        failed_times(runtime, op, n).agent_id == runtime.agent_id,
        failed_times(runtime, op, n).heartbeat_deadline == runtime.heartbeat_deadline,
        failed_times(runtime, op, n).auth_token == runtime.auth_token,
    decreases n,
{
    if n > 0 {
        lemma_failures_keep(runtime, op, (n - 1) as nat);
    }
}

/// An agent that is not registered has nothing to report with. One that is reports under its
/// number what it was given; once the report is answered, however often it failed before, the
/// reported leases are no longer tracked, the others keep their deadlines, and nothing else
/// that others see of the agent has changed.
pub proof fn law_report_is_carried_out(
    runtime: RuntimeView,
    completed: Vec<LeaseReport>,
    cancelled: Vec<LeaseReport>,
    failures: nat,
    id: u64,
)
    ensures
        match report_of(runtime, completed, cancelled) {
            Err(error) => runtime.agent_id is None && error == ControlPlaneError::NotRegistered,
            Ok(request) => {
                let after = failed_times(runtime, AgentOperation::Report, failures).without(
                    request.completed@,
                    request.cancelled@,
                ).succeeded(AgentOperation::Report);
                &&& runtime.agent_id == Some(request.agent_id)
                &&& request.completed == completed
                &&& request.cancelled == cancelled
                &&& after.leases.contains_key(id) <==> runtime.leases.contains_key(id) && !reported(
                    completed@,
                    id,
                ) && !reported(cancelled@, id)
                &&& after.leases.contains_key(id) ==> after.leases[id] == runtime.leases[id]
                &&& after.agent_id == runtime.agent_id
                &&& after.heartbeat_deadline == runtime.heartbeat_deadline
                &&& after.auth_token == runtime.auth_token
            },
        },
{
    lemma_failures_keep(runtime, AgentOperation::Report, failures);
}

/// A lease that was reported is no longer tracked, and every other one keeps its deadline.
pub proof fn law_report_forgets(
    runtime: RuntimeView,
    completed: Seq<LeaseReport>,
    cancelled: Seq<LeaseReport>,
    id: u64,
)
    ensures
        reported(completed, id) || reported(cancelled, id) ==> !runtime.without(
            completed,
            cancelled,
        ).leases.contains_key(id),
        !reported(completed, id) && !reported(cancelled, id) && runtime.leases.contains_key(id)
            ==> runtime.without(completed, cancelled).leases.contains_key(id)
            && runtime.without(completed, cancelled).leases[id] == runtime.leases[id],
{
}

/// After a success the next failure waits as long as the first one did.
pub proof fn law_success_resets_backoff(
    runtime: RuntimeView,
    op: AgentOperation,
    policy: BackoffPolicy,
)
    ensures
        policy.delay(runtime.succeeded(op).attempts.of(op)) == policy.delay(0),
{
}

/// A failure of one operation does not change how long another one waits.
pub proof fn law_backoff_is_separate(runtime: RuntimeView, op: AgentOperation, other: AgentOperation)
    requires
        op != other,
    ensures
        runtime.failed(op).attempts.of(other) == runtime.attempts.of(other),
        runtime.succeeded(op).attempts.of(other) == runtime.attempts.of(other),
{
}

/// A lease that no claimed lease names keeps its deadline, and none comes up that was not
/// claimed.
pub proof fn law_claim_leaves_other_leases(
    deadlines: Map<u64, u128>,
    leases: Seq<Lease>,
    now: u64,
    id: u64,
)
    requires
        forall|k: int| 0 <= k < leases.len() ==> (#[trigger] leases[k]).lease_id != id,
    ensures
        claimed(deadlines, leases, now).contains_key(id) <==> deadlines.contains_key(id),
        claimed(deadlines, leases, now)[id] == deadlines[id],
    decreases leases.len(),
{
    if leases.len() > 0 {
        let init = leases.drop_last();
        assert(forall|k: int| 0 <= k < init.len() ==> #[trigger] init[k] == leases[k]);
        assert(leases[leases.len() - 1] == leases.last());
        law_claim_leaves_other_leases(deadlines, init, now, id);
    }
}

/// A claimed lease is held until as many milliseconds from now as its last mention says.
pub proof fn law_claim_sets_deadlines(
    deadlines: Map<u64, u128>,
    leases: Seq<Lease>,
    now: u64,
    i: int,
)
    requires
        0 <= i < leases.len(),
        forall|k: int|
            i < k < leases.len() ==> (#[trigger] leases[k]).lease_id != leases[i].lease_id,
    ensures
        claimed(deadlines, leases, now).contains_key(leases[i].lease_id),
        claimed(deadlines, leases, now)[leases[i].lease_id] == now + leases[i].lease_until_ms
            * 1_000_000,
{
    law_claim_tracks(deadlines, leases, now, i);
}

/// A lease that is held gets the deadline of the last outcome that names it, and keeps its own if
/// none does. One that is not held stays so.
pub proof fn law_extend_sets_deadlines(
    deadlines: Map<u64, u128>,
    outcomes: Seq<ExtendOutcome>,
    now: u64,
    id: u64,
)
    ensures
        extended(deadlines, outcomes, now).contains_key(id) <==> deadlines.contains_key(id),
        forall|i: int|
            deadlines.contains_key(id) && 0 <= i < outcomes.len() && (#[trigger] outcomes[i]).lease_id
                == id && (forall|k: int|
                i < k < outcomes.len() ==> (#[trigger] outcomes[k]).lease_id != id) ==> extended(
                deadlines,
                outcomes,
                now,
            )[id] == now + outcomes[i].new_deadline_ms * 1_000_000,
        (forall|k: int| 0 <= k < outcomes.len() ==> (#[trigger] outcomes[k]).lease_id != id)
            ==> extended(deadlines, outcomes, now)[id] == deadlines[id],
    decreases outcomes.len(),
{
    if outcomes.len() > 0 {
        let init = outcomes.drop_last();
        let last = outcomes.last();
        law_extend_sets_deadlines(deadlines, init, now, id);
        assert(forall|k: int| 0 <= k < init.len() ==> #[trigger] outcomes[k] == init[k]);
        assert(outcomes[outcomes.len() - 1] == last);
        if last.lease_id != id {
            assert forall|i: int|
                deadlines.contains_key(id) && 0 <= i < outcomes.len() && (
                #[trigger] outcomes[i]).lease_id == id && (forall|k: int|
                    i < k < outcomes.len() ==> (#[trigger] outcomes[k]).lease_id
                        != id) implies extended(deadlines, outcomes, now)[id] == now
                + outcomes[i].new_deadline_ms * 1_000_000 by {
                assert(init[i].lease_id == id);
                assert forall|k: int| i < k < init.len() implies (#[trigger] init[k]).lease_id
                    != id by {
                    assert(outcomes[k] == init[k]);
                }
            }
            if forall|k: int| 0 <= k < outcomes.len() ==> (#[trigger] outcomes[k]).lease_id != id {
                assert forall|k: int| 0 <= k < init.len() implies (#[trigger] init[k]).lease_id
                    != id by {
                    assert(outcomes[k] == init[k]);
                }
            }
        }
    }
}

/// Registering makes the agent active under the number and the token that it was given, for the
/// times that it was given. Its leases and its failures so far stay.
pub proof fn law_registration_is_taken_over(
    runtime: RuntimeView,
    response: RegisterResponse,
    now: u64,
)
    ensures
        ({
            let after = runtime.registered(response, now);
            &&& after.lifecycle is Active
            &&& after.agent_id == Some(response.agent_id)
            &&& after.auth_token == Some(response.auth_token@)
            &&& after.lease_duration == response.lease_duration_ms * 1_000_000
            &&& after.heartbeat_timeout == response.heartbeat_timeout_ms * 1_000_000
            &&& after.heartbeat_deadline is Some
            &&& after.heartbeat_deadline->0 == now + response.heartbeat_timeout_ms * 1_000_000
            &&& after.leases == runtime.leases
            &&& after.attempts == runtime.attempts
        }),
{
}

/// A heartbeat moves its own deadline to as many milliseconds from now as the answer says, and
/// changes nothing else.
pub proof fn law_heartbeat_moves_its_deadline(
    runtime: RuntimeView,
    response: HeartbeatResponse,
    now: u64,
)
    ensures
        ({
            let after = runtime.beaten(response, now);
            &&& after.heartbeat_deadline is Some
            &&& after.heartbeat_deadline->0 == now + response.next_deadline_ms * 1_000_000
            &&& after.lifecycle == runtime.lifecycle
            &&& after.agent_id == runtime.agent_id
            &&& after.auth_token == runtime.auth_token
            &&& after.lease_duration == runtime.lease_duration
            &&& after.heartbeat_timeout == runtime.heartbeat_timeout
            &&& after.leases == runtime.leases
            &&& after.attempts == runtime.attempts
        }),
{
}

/// A failure counts as one more of its operation, and a success as none. Neither touches anything
/// else of the agent.
pub proof fn law_failures_are_counted(runtime: RuntimeView, op: AgentOperation)
    ensures
        ({
            let before = runtime.attempts;
            let failed = runtime.failed(op);
            let succeeded = runtime.succeeded(op);
            let count = |a: Attempts|
                match op {
                    AgentOperation::Register => a.register,
                    AgentOperation::Heartbeat => a.heartbeat,
                    AgentOperation::Claim => a.claim,
                    AgentOperation::Extend => a.extend,
                    AgentOperation::Report => a.report,
                };
            &&& count(before) < u32::MAX ==> count(failed.attempts) == count(before) + 1
            &&& count(before) == u32::MAX ==> count(failed.attempts) == u32::MAX
            &&& count(succeeded.attempts) == 0
            &&& op is Register || failed.attempts.register == before.register
                && succeeded.attempts.register == before.register
            &&& op is Heartbeat || failed.attempts.heartbeat == before.heartbeat
                && succeeded.attempts.heartbeat == before.heartbeat
            &&& op is Claim || failed.attempts.claim == before.claim && succeeded.attempts.claim
                == before.claim
            &&& op is Extend || failed.attempts.extend == before.extend
                && succeeded.attempts.extend == before.extend
            &&& op is Report || failed.attempts.report == before.report
                && succeeded.attempts.report == before.report
            &&& failed == (RuntimeView { attempts: failed.attempts, ..runtime })
            &&& succeeded == (RuntimeView { attempts: succeeded.attempts, ..runtime })
        }),
{
}

/// Every lease that a report names is forgotten, and no other.
pub proof fn law_reported_leases_are_forgotten(
    runtime: RuntimeView,
    completed: Seq<LeaseReport>,
    cancelled: Seq<LeaseReport>,
)
    ensures
        ({
            let after = runtime.without(completed, cancelled);
            &&& forall|i: int|
                0 <= i < completed.len() ==> !after.leases.contains_key(
                    (#[trigger] completed[i]).lease_id,
                )
            &&& forall|i: int|
                0 <= i < cancelled.len() ==> !after.leases.contains_key(
                    (#[trigger] cancelled[i]).lease_id,
                )
            &&& forall|id: u64|
                #![trigger after.leases.contains_key(id)]
                runtime.leases.contains_key(id) && (forall|i: int|
                    0 <= i < completed.len() ==> (#[trigger] completed[i]).lease_id != id) && (
                forall|i: int| 0 <= i < cancelled.len() ==> (#[trigger] cancelled[i]).lease_id != id)
                    ==> after.leases.contains_key(id) && after.leases[id] == runtime.leases[id]
            &&& forall|id: u64| #[trigger]
                after.leases.contains_key(id) ==> runtime.leases.contains_key(id)
            &&& after == (RuntimeView { leases: after.leases, ..runtime })
        }),
{
    assert forall|i: int| 0 <= i < completed.len() implies !runtime.without(
        completed,
        cancelled,
    ).leases.contains_key((#[trigger] completed[i]).lease_id) by {
        assert(reported(completed, completed[i].lease_id));
    }
    assert forall|i: int| 0 <= i < cancelled.len() implies !runtime.without(
        completed,
        cancelled,
    ).leases.contains_key((#[trigger] cancelled[i]).lease_id) by {
        assert(reported(cancelled, cancelled[i].lease_id));
    }
}

} // verus!
