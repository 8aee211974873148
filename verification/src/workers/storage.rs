//! What the control plane decides about agents, leases and reports.

use vstd::prelude::*;
use vstd::string::*;

use crate::control_plane::{
    ExtendOutcome, HeartbeatResponse, Lease, RegisterRequest, RegisterResponse, ReportResponse,
    TaskSpec,
};
use crate::kinds::{all_kinds, task_kinds, KindMap, TaskKind};

verus! {

/// Time that an agent holds a lease, in milliseconds.
pub const DEFAULT_LEASE_DURATION_MS: i64 = 60_000;

/// Time within which an agent must send a heartbeat, in milliseconds.
pub const DEFAULT_HEARTBEAT_TIMEOUT_MS: i64 = 45_000;

/// For how many days metrics are kept.
pub const METRICS_RETENTION_DAYS: i64 = 30;

/// An agent that proved who it is.
#[derive(Debug, Clone, PartialEq, Eq)]
pub struct AgentIdentity {
    pub agent_id: u64,
    pub token: String,
}

/// Why the control plane could not do what was asked.
#[derive(Debug)]
pub enum StorageError {
    AgentNotFound,
    AgentRevoked,
    AgentDisabled,
    LeaseNotFound,
    TaskNotFound,
    Forbidden(&'static str),
    Database(String),
    Serialization(String),
    Other(String),
}

impl StorageError {
    pub open spec fn text(&self) -> Seq<char> {
        match self {
            StorageError::AgentNotFound => "agent not found"@,
            StorageError::AgentRevoked => "agent revoked"@,
            StorageError::AgentDisabled => "agent disabled"@,
            StorageError::LeaseNotFound => "lease not found"@,
            StorageError::TaskNotFound => "task not found"@,
            StorageError::Forbidden(reason) => "forbidden: "@ + reason@,
            StorageError::Database(e) => e@,
            StorageError::Serialization(e) => e@,
            StorageError::Other(e) => e@,
        }
    }

    /// The message shown to users.
    pub fn message(&self) -> (r: String)
        ensures
            r@ == self.text(),
    {
        match self {
            StorageError::AgentNotFound => "agent not found".to_string(),
            StorageError::AgentRevoked => "agent revoked".to_string(),
            StorageError::AgentDisabled => "agent disabled".to_string(),
            StorageError::LeaseNotFound => "lease not found".to_string(),
            StorageError::TaskNotFound => "task not found".to_string(),
            StorageError::Forbidden(reason) => crate::text::concat2("forbidden: ", reason),
            StorageError::Database(e) => e.clone(),
            StorageError::Serialization(e) => e.clone(),
            StorageError::Other(e) => e.clone(),
        }
    }
}

/// A number of the database as an unsigned one, with the same bits.
pub open spec fn unsigned(n: i64) -> u64 {
    if n >= 0 {
        n as u64
    } else {
        (n + 0x1_0000_0000_0000_0000) as u64
    }
}

fn to_unsigned(n: i64) -> (r: u64)
    ensures
        r == unsigned(n),
{
    if n >= 0 {
        n as u64
    } else {
        (n as i128 + 0x1_0000_0000_0000_0000) as u64
    }
}

/// The host name that an agent gives, if it gives one.
pub fn given_hostname(request: &RegisterRequest) -> (r: Option<String>)
    ensures
        match request.hostname {
            Some(name) => if name@.len() > 0 {
                r is Some && r->0@ == name@
            } else {
                r is None
            },
            None => r is None,
        },
{
    match &request.hostname {
        Some(name) => if name.as_str().is_empty() {
            None
        } else {
            Some(name.clone())
        },
        None => None,
    }
}

/// Whether `c` is a digit of a number in hexadecimal notation with small letters.
pub open spec fn is_hex(c: char) -> bool {
    ('0' <= c && c <= '9') || ('a' <= c && c <= 'f')
}

/// The text of a random unique identifier: 32 digits in five groups, of which the third
/// starts with the version and the fourth with the variant.
pub open spec fn is_token(text: Seq<char>) -> bool {
    &&& text.len() == 36
    &&& text[8] == '-' && text[13] == '-' && text[18] == '-' && text[23] == '-'
    &&& text[14] == '4'
    &&& text[19] == '8' || text[19] == '9' || text[19] == 'a' || text[19] == 'b'
    &&& forall|i: int|
        0 <= i < 36 && i != 8 && i != 13 && i != 18 && i != 23 ==> is_hex(#[trigger] text[i])
}

/// Calls `Uuid::new_v4` and writes the identifier with its `Display`: 36 characters, digits
/// in hexadecimal notation with hyphens between the groups, the version 4 and the variant of
/// RFC 4122. Which identifier it is rests on chance.
#[verifier::external_body]
fn random_token() -> (r: String)
    ensures
        is_token(r@),
{
    uuid::Uuid::new_v4().to_string()
}

/// A new identifier for an agent to prove who it is, or for a stored record.
pub fn new_token() -> (r: String)
    ensures
        is_token(r@),
{
    random_token()
}

/// What is stored of a registered agent.
#[derive(Debug, Clone, Copy, PartialEq, Eq, Structural)]
pub struct AgentRow {
    pub id: i64,
    pub lease_duration_ms: i64,
    pub heartbeat_timeout_ms: i64,
}

/// How an agent is registered.
#[derive(Debug)]
pub enum Registration {
    /// The agent is known: it gets a new token.
    Rotate { agent: AgentRow, token: String },
    /// The agent is stored under a new number.
    Create { lease_duration_ms: i64, heartbeat_timeout_ms: i64, token: String },
}

/// The plan fits what is stored under a host name: a known agent keeps what is stored of it, a
/// new one gets the default durations, and either gets a token.
pub open spec fn is_plan(existing: Option<AgentRow>, plan: Registration) -> bool {
    match (existing, plan) {
        (Some(row), Registration::Rotate { agent, token }) => agent == row && is_token(token@),
        (None, Registration::Create { lease_duration_ms, heartbeat_timeout_ms, token }) => {
            &&& lease_duration_ms == DEFAULT_LEASE_DURATION_MS
            &&& heartbeat_timeout_ms == DEFAULT_HEARTBEAT_TIMEOUT_MS
            &&& is_token(token@)
        },
        _ => false,
    }
}

/// The answer to a registration that was carried out. A new agent has the number `assigned`.
pub open spec fn response_of(plan: Registration, assigned: i64) -> RegisterResponse {
    match plan {
        Registration::Rotate { agent, token } => RegisterResponse {
            agent_id: unsigned(agent.id),
            lease_duration_ms: unsigned(agent.lease_duration_ms),
            heartbeat_timeout_ms: unsigned(agent.heartbeat_timeout_ms),
            auth_token: token,
        },
        Registration::Create { lease_duration_ms, heartbeat_timeout_ms, token } =>
            RegisterResponse {
            agent_id: unsigned(assigned),
            lease_duration_ms: unsigned(lease_duration_ms),
            heartbeat_timeout_ms: unsigned(heartbeat_timeout_ms),
            auth_token: token,
        },
    }
}

/// The registration with `token` of the agent with a host name, under which an agent may be
/// stored.
pub fn registration_with(existing: Option<AgentRow>, token: String) -> (r: Registration)
    ensures
        r == match existing {
            Some(agent) => Registration::Rotate { agent, token },
            None => Registration::Create {
                lease_duration_ms: DEFAULT_LEASE_DURATION_MS,
                heartbeat_timeout_ms: DEFAULT_HEARTBEAT_TIMEOUT_MS,
                token,
            },
        },
{
    match existing {
        Some(agent) => Registration::Rotate { agent, token },
        None => Registration::Create {
            lease_duration_ms: DEFAULT_LEASE_DURATION_MS,
            heartbeat_timeout_ms: DEFAULT_HEARTBEAT_TIMEOUT_MS,
            token,
        },
    }
}

/// Decides how the agent with a host name is registered, under which an agent may be stored.
/// Which token it gets rests on chance.
pub fn plan_registration(existing: Option<AgentRow>) -> (r: Registration)
    ensures
        is_plan(existing, r),
{
    registration_with(existing, new_token())
}

/// The answer to a registration. A new agent has the number `assigned`.
pub fn register_response(plan: Registration, assigned: i64) -> (r: RegisterResponse)
    ensures
        r == response_of(plan, assigned),
{
    match plan {
        Registration::Rotate { agent, token } => RegisterResponse {
            agent_id: to_unsigned(agent.id),
            lease_duration_ms: to_unsigned(agent.lease_duration_ms),
            heartbeat_timeout_ms: to_unsigned(agent.heartbeat_timeout_ms),
            auth_token: token,
        },
        Registration::Create { lease_duration_ms, heartbeat_timeout_ms, token } =>
            RegisterResponse {
            agent_id: to_unsigned(assigned),
            lease_duration_ms: to_unsigned(lease_duration_ms),
            heartbeat_timeout_ms: to_unsigned(heartbeat_timeout_ms),
            auth_token: token,
        },
    }
}

/// What is stored of an agent that sends a heartbeat. Zero stands for no.
#[derive(Debug, Clone, Copy, PartialEq, Eq, Structural)]
pub struct HeartbeatRow {
    pub heartbeat_timeout_ms: i64,
    pub revoked: i64,
    pub disabled: i64,
}

/// Decides on a heartbeat.
pub fn check_heartbeat(row: Option<HeartbeatRow>, agent_id: u64) -> (r: Result<
    HeartbeatResponse,
    StorageError,
>)
    ensures
        r == match row {
            None => Err(StorageError::AgentNotFound),
            Some(agent) => if agent.revoked != 0 {
                Err(StorageError::AgentRevoked)
            } else if agent.disabled != 0 {
                Err(StorageError::AgentDisabled)
            } else {
                Ok(
                    HeartbeatResponse {
                        agent_id,
                        next_deadline_ms: unsigned(agent.heartbeat_timeout_ms),
                    },
                )
            },
        },
{
    match row {
        None => Err(StorageError::AgentNotFound),
        Some(agent) => if agent.revoked != 0 {
            Err(StorageError::AgentRevoked)
        } else if agent.disabled != 0 {
            Err(StorageError::AgentDisabled)
        } else {
            Ok(
                HeartbeatResponse {
                    agent_id,
                    next_deadline_ms: to_unsigned(agent.heartbeat_timeout_ms),
                },
            )
        },
    }
}

/// What is stored of the credentials of an agent. Zero stands for no.
#[derive(Debug)]
pub struct CredentialRow {
    pub auth_token: String,
    pub revoked: i64,
    pub disabled: i64,
}

/// What is said of the credentials of an agent that is stored.
pub enum CredentialVerdict {
    Valid,
    WrongToken,
    Revoked,
    Disabled,
}

/// What is said of an agent that brings `token`, where `stored` is the token that it was given
/// last. The token is checked before anything else.
pub open spec fn verdict(
    stored: Seq<char>,
    revoked: i64,
    disabled: i64,
    token: Seq<char>,
) -> CredentialVerdict {
    if stored != token {
        CredentialVerdict::WrongToken
    } else if revoked != 0 {
        CredentialVerdict::Revoked
    } else if disabled != 0 {
        CredentialVerdict::Disabled
    } else {
        CredentialVerdict::Valid
    }
}

/// Decides whether an agent is who it claims to be.
pub fn check_credentials(row: Option<CredentialRow>, agent_id: u64, token: &str) -> (r: Result<
    AgentIdentity,
    StorageError,
>)
    ensures
        match row {
            None => r == Err::<AgentIdentity, _>(StorageError::AgentNotFound),
            Some(agent) => match verdict(
                agent.auth_token@,
                agent.revoked,
                agent.disabled,
                token@,
            ) {
                CredentialVerdict::WrongToken => r is Err && r->Err_0 is Forbidden
                    && r->Err_0->Forbidden_0@ == "invalid token"@,
                CredentialVerdict::Revoked => r == Err::<AgentIdentity, _>(
                    StorageError::AgentRevoked,
                ),
                CredentialVerdict::Disabled => r == Err::<AgentIdentity, _>(
                    StorageError::AgentDisabled,
                ),
                CredentialVerdict::Valid => r is Ok && r->Ok_0.agent_id == agent_id
                    && r->Ok_0.token@ == token@,
            },
        },
{
    match row {
        None => Err(StorageError::AgentNotFound),
        Some(agent) => {
            let given: String = token.to_string();
            if agent.auth_token != given {
                Err(StorageError::Forbidden("invalid token"))
            } else if agent.revoked != 0 {
                Err(StorageError::AgentRevoked)
            } else if agent.disabled != 0 {
                Err(StorageError::AgentDisabled)
            } else {
                Ok(AgentIdentity { agent_id, token: agent.auth_token })
            }
        },
    }
}

/// The agents that are stored: under each host name what is stored of its agent, under each
/// number the token that was given last, and the number that was given last.
pub struct AgentTable {
    pub rows: Map<Seq<char>, AgentRow>,
    pub tokens: Map<i64, Seq<char>>,
    pub last: i64,
}

impl AgentTable {
    /// Numbers were given in turn from one on, and no two host names have the same one.
    pub open spec fn wf(self) -> bool {
        &&& 0 <= self.last
        &&& forall|host: Seq<char>| #[trigger]
            self.rows.contains_key(host) ==> 1 <= self.rows[host].id <= self.last
        &&& forall|a: Seq<char>, b: Seq<char>|
            #![trigger self.rows[a], self.rows[b]]
            self.rows.contains_key(a) && self.rows.contains_key(b) && a != b ==> self.rows[a].id
                != self.rows[b].id
    }

    /// What is stored under a host name.
    pub open spec fn row(self, host: Seq<char>) -> Option<AgentRow> {
        if self.rows.contains_key(host) {
            Some(self.rows[host])
        } else {
            None
        }
    }

    /// The number that the next new agent gets.
    pub open spec fn next(self) -> i64 {
        (self.last + 1) as i64
    }

    /// The table after a registration was carried out.
    pub open spec fn registered(self, host: Seq<char>, plan: Registration) -> AgentTable {
        match plan {
            Registration::Rotate { agent, token } => AgentTable {
                tokens: self.tokens.insert(agent.id, token@),
                ..self
            },
            Registration::Create { lease_duration_ms, heartbeat_timeout_ms, token } => AgentTable {
                rows: self.rows.insert(
                    host,
                    AgentRow { id: self.next(), lease_duration_ms, heartbeat_timeout_ms },
                ),
                tokens: self.tokens.insert(self.next(), token@),
                last: self.next(),
            },
        }
    }
}

/// A host that registers a second time keeps its number and its durations. From then on its
/// new token is accepted, unless it was revoked or disabled, and the old one is refused, if
/// the two differ.
pub proof fn law_registration_rotates_token(
    table: AgentTable,
    host: Seq<char>,
    first: Registration,
    second: Registration,
    revoked: i64,
    disabled: i64,
)
    requires
        table.wf(),
        table.last < i64::MAX,
        is_plan(table.row(host), first),
        is_plan(table.registered(host, first).row(host), second),
    ensures
        ({
            let between = table.registered(host, first);
            let after = between.registered(host, second);
            let a = response_of(first, table.next());
            let b = response_of(second, between.next());
            let id = after.rows[host].id;
            &&& b.agent_id == a.agent_id == unsigned(id)
            &&& b.lease_duration_ms == a.lease_duration_ms
            &&& b.heartbeat_timeout_ms == a.heartbeat_timeout_ms
            &&& after.rows == between.rows
            &&& after.tokens[id] == b.auth_token@
            &&& verdict(after.tokens[id], 0, 0, b.auth_token@) is Valid
            &&& !(verdict(after.tokens[id], revoked, disabled, b.auth_token@) is WrongToken)
            &&& a.auth_token@ != b.auth_token@ ==> verdict(
                after.tokens[id],
                revoked,
                disabled,
                a.auth_token@,
            ) is WrongToken
        }),
{
}

/// Registrations keep the numbers of agents apart, and leave other agents as they are.
pub proof fn law_hosts_have_own_numbers(
    table: AgentTable,
    host: Seq<char>,
    plan: Registration,
    other: Seq<char>,
)
    requires
        table.wf(),
        table.last < i64::MAX,
        is_plan(table.row(host), plan),
        host != other,
    ensures
        ({
            let after = table.registered(host, plan);
            &&& after.wf()
            &&& after.row(other) == table.row(other)
            &&& match table.row(other) {
                Some(row) => {
                    &&& response_of(plan, table.next()).agent_id != unsigned(row.id)
                    &&& after.tokens.contains_key(row.id) == table.tokens.contains_key(row.id)
                    &&& after.tokens[row.id] == table.tokens[row.id]
                },
                None => true,
            }
        }),
{
}

/// The time that an agent holds a lease, which is stored with the agent.
pub fn claim_duration(row: Option<i64>) -> (r: Result<i64, StorageError>)
    ensures
        r == match row {
            Some(ms) => Ok(ms),
            None => Err(StorageError::AgentNotFound),
        },
{
    match row {
        Some(ms) => Ok(ms),
        None => Err(StorageError::AgentNotFound),
    }
}

/// The kinds that an agent has room for, with how much, in the order of the kinds.
pub open spec fn wanted(capacities: Map<TaskKind, usize>, kinds: Seq<TaskKind>) -> Seq<
    (TaskKind, usize),
>
    decreases kinds.len(),
{
    if kinds.len() == 0 {
        Seq::empty()
    } else {
        let before = wanted(capacities, kinds.drop_last());
        let kind = kinds.last();
        if capacities.contains_key(kind) && capacities[kind] > 0 {
            before.push((kind, capacities[kind]))
        } else {
            before
        }
    }
}

/// The kinds that an agent has room for, with how much.
pub fn claim_order(capacities: &KindMap<usize>) -> (r: Vec<(TaskKind, usize)>)
    ensures
        r@ == wanted(capacities@, all_kinds()),
{
    let kinds: [TaskKind; 5] = task_kinds();
    let ghost all = all_kinds();
    let mut r: Vec<(TaskKind, usize)> = Vec::new();
    let mut i: usize = 0;
    while i < 5
        invariant
            i <= 5,
            kinds@ == all,
            all == all_kinds(),
            r@ == wanted(capacities@, all.take(i as int)),
        decreases 5 - i,
    {
        let kind: TaskKind = kinds[i];
        assert(all.take(i + 1).drop_last() =~= all.take(i as int));
        if let Some(capacity) = capacities.get(kind) {
            if *capacity > 0 {
                r.push((kind, *capacity));
            }
        }
        i = i + 1;
    }
    assert(all.take(5) =~= all);
    r
}

/// A claim serves every kind that the agent has room for, once and with all its room, and no
/// other kind.
pub proof fn law_claim_serves_every_kind(capacities: Map<TaskKind, usize>, kind: TaskKind)
    ensures
        ({
            let order = wanted(capacities, all_kinds());
            &&& forall|i: int|
                0 <= i < order.len() && (#[trigger] order[i]).0 == kind ==> capacities.contains_key(
                    kind,
                ) && capacities[kind] > 0 && order[i].1 == capacities[kind]
            &&& forall|i: int, j: int|
                0 <= i < j < order.len() ==> (#[trigger] order[i]).0 != (#[trigger] order[j]).0
            &&& capacities.contains_key(kind) && capacities[kind] > 0 ==> exists|i: int|
                0 <= i < order.len() && order[i] == (kind, capacities[kind])
        }),
{
    let all = all_kinds();
    assert(all.no_duplicates());
    lemma_wanted(capacities, all);
    assert(all[0] == TaskKind::Dns);
    assert(all[1] == TaskKind::Http);
    assert(all[2] == TaskKind::Tcp);
    assert(all[3] == TaskKind::Ping);
    assert(all[4] == TaskKind::Trace);
    assert(all.contains(kind));
}

proof fn lemma_wanted(capacities: Map<TaskKind, usize>, kinds: Seq<TaskKind>)
    requires
        kinds.no_duplicates(),
    ensures
        ({
            let order = wanted(capacities, kinds);
            &&& forall|i: int|
                0 <= i < order.len() ==> {
                    &&& kinds.contains((#[trigger] order[i]).0)
                    &&& capacities.contains_key(order[i].0)
                    &&& capacities[order[i].0] > 0
                    &&& order[i].1 == capacities[order[i].0]
                }
            &&& forall|i: int, j: int|
                0 <= i < j < order.len() ==> (#[trigger] order[i]).0 != (#[trigger] order[j]).0
            &&& forall|kind: TaskKind| #[trigger]
                kinds.contains(kind) && capacities.contains_key(kind) && capacities[kind] > 0
                    ==> order.contains((kind, capacities[kind]))
        }),
    decreases kinds.len(),
{
    if kinds.len() > 0 {
        let init = kinds.drop_last();
        let last = kinds.last();
        let before = wanted(capacities, init);
        let order = wanted(capacities, kinds);
        lemma_wanted(capacities, init);
        assert(!init.contains(last)) by {
            if init.contains(last) {
                let k = choose|k: int| 0 <= k < init.len() && init[k] == last;
                assert(kinds[k] == kinds[kinds.len() - 1]);
            }
        }
        assert forall|kind: TaskKind| init.contains(kind) implies #[trigger] kinds.contains(
            kind,
        ) by {
            let k = choose|k: int| 0 <= k < init.len() && init[k] == kind;
            assert(kinds[k] == kind);
        }
        assert(kinds.contains(last)) by {
            assert(kinds[kinds.len() - 1] == last);
        }
        assert forall|i: int| 0 <= i < before.len() implies #[trigger] order[i] == before[i] by {}
        assert forall|i: int| 0 <= i < order.len() implies kinds.contains(
            (#[trigger] order[i]).0,
        ) by {
            if i < before.len() {
                assert(init.contains(before[i].0));
            }
        }
        assert forall|kind: TaskKind| #[trigger]
            kinds.contains(kind) && capacities.contains_key(kind) && capacities[kind]
                > 0 implies order.contains((kind, capacities[kind])) by {
            let k = choose|k: int| 0 <= k < kinds.len() && kinds[k] == kind;
            if k < init.len() {
                assert(init[k] == kind);
                assert(init.contains(kind));
                let pair = (kind, capacities[kind]);
                let m = choose|m: int| 0 <= m < before.len() && before[m] == pair;
                assert(order[m] == pair);
            } else {
                assert(order[before.len() as int] == (kind, capacities[kind]));
            }
        }
    }
}

/// The lease of a task that was queued.
pub fn lease_of(lease_id: i64, task_id: i64, kind: TaskKind, duration_ms: i64, spec: TaskSpec) -> (r:
    Lease)
    ensures
        r == (Lease {
            lease_id: unsigned(lease_id),
            task_id: unsigned(task_id),
            kind,
            lease_until_ms: unsigned(duration_ms),
            spec,
        }),
{
    Lease {
        lease_id: to_unsigned(lease_id),
        task_id: to_unsigned(task_id),
        kind,
        lease_until_ms: to_unsigned(duration_ms),
        spec,
    }
}

/// A lease that an agent asks to extend, with its stored status, if the agent holds it.
#[derive(Debug)]
pub struct ExtendRow {
    pub lease_id: u64,
    pub status: Option<String>,
}

/// Only leases under execution are extended.
pub open spec fn extendable(row: ExtendRow) -> bool {
    row.status is Some && row.status->0@ == "leased"@
}

/// The leases among `rows` that are extended, or those that are not, in their order.
pub open spec fn picked(rows: Seq<ExtendRow>, extended: bool) -> Seq<u64>
    decreases rows.len(),
{
    if rows.len() == 0 {
        Seq::empty()
    } else {
        let before = picked(rows.drop_last(), extended);
        if extendable(rows.last()) == extended {
            before.push(rows.last().lease_id)
        } else {
            before
        }
    }
}

/// The leases that were extended, and those that the agent no longer holds.
#[derive(Debug)]
pub struct ExtendBatch {
    pub outcomes: Vec<ExtendOutcome>,
    pub revoked: Vec<u64>,
}

/// Decides which leases are extended by `extend_by_ms`.
pub fn decide_extensions(rows: &Vec<ExtendRow>, extend_by_ms: u64) -> (r: ExtendBatch)
    ensures
        r.outcomes@ == picked(rows@, true).map_values(
            |id: u64| ExtendOutcome { lease_id: id, new_deadline_ms: extend_by_ms },
        ),
        r.revoked@ == picked(rows@, false),
{
    let ghost outcome = |id: u64| ExtendOutcome { lease_id: id, new_deadline_ms: extend_by_ms };
    let mut outcomes: Vec<ExtendOutcome> = Vec::new();
    let mut revoked: Vec<u64> = Vec::new();
    let mut i: usize = 0;
    assert(outcomes@ =~= picked(rows@.take(0), true).map_values(outcome));
    while i < rows.len()
        invariant
            i <= rows.len(),
            outcome == (|id: u64| ExtendOutcome { lease_id: id, new_deadline_ms: extend_by_ms }),
            outcomes@ == picked(rows@.take(i as int), true).map_values(outcome),
            revoked@ == picked(rows@.take(i as int), false),
        decreases rows.len() - i,
    {
        let ghost before = picked(rows@.take(i as int), true);
        assert(rows@.take(i + 1).drop_last() =~= rows@.take(i as int));
        let leased: bool = match &rows[i].status {
            Some(status) => *status == "leased".to_string(),
            None => false,
        };
        let id: u64 = rows[i].lease_id;
        if leased {
            outcomes.push(ExtendOutcome { lease_id: id, new_deadline_ms: extend_by_ms });
            assert(before.push(id).map_values(outcome) =~= before.map_values(outcome).push(
                outcome(id),
            ));
        } else {
            revoked.push(id);
        }
        i = i + 1;
    }
    assert(rows@.take(i as int) =~= rows@);
    ExtendBatch { outcomes, revoked }
}

/// Every lease that an agent asks to extend is either extended or reported as revoked.
pub proof fn law_extension_answers_every_lease(rows: Seq<ExtendRow>, i: int)
    requires
        0 <= i < rows.len(),
    ensures
        picked(rows, extendable(rows[i])).contains(rows[i].lease_id),
        picked(rows, true).len() + picked(rows, false).len() == rows.len(),
    decreases rows.len(),
{
    lemma_picked_len(rows);
    let init = rows.drop_last();
    let which = extendable(rows[i]);
    if i < init.len() {
        law_extension_answers_every_lease(init, i);
        assert(init[i] == rows[i]);
        let list = picked(init, which);
        let k = choose|k: int| 0 <= k < list.len() && list[k] == rows[i].lease_id;
        assert(picked(rows, which)[k] == rows[i].lease_id);
    } else {
        let list = picked(init, which);
        assert(picked(rows, which)[list.len() as int] == rows[i].lease_id);
    }
}

proof fn lemma_picked_len(rows: Seq<ExtendRow>)
    ensures
        picked(rows, true).len() + picked(rows, false).len() == rows.len(),
    decreases rows.len(),
{
    if rows.len() > 0 {
        lemma_picked_len(rows.drop_last());
    }
}

/// How many of `found` are true.
pub open spec fn count_found(found: Seq<bool>) -> nat
    decreases found.len(),
{
    if found.len() == 0 {
        0
    } else {
        count_found(found.drop_last()) + if found.last() {
            1nat
        } else {
            0
        }
    }
}

/// The answer to a report: as many leases are acknowledged as the agent holds of those that
/// it reported.
pub fn report_response(found: &Vec<bool>) -> (r: ReportResponse)
    ensures
        r.acknowledged == count_found(found@),
{
    let mut n: usize = 0;
    let mut i: usize = 0;
    while i < found.len()
        invariant
            i <= found.len(),
            n <= i,
            n == count_found(found@.take(i as int)),
        decreases found.len() - i,
    {
        assert(found@.take(i + 1).drop_last() =~= found@.take(i as int));
        if found[i] {
            n = n + 1;
        }
        i = i + 1;
    }
    assert(found@.take(i as int) =~= found@);
    ReportResponse { acknowledged: n }
}

/// Calls `chrono::Duration::from_std`, which refuses durations of more than `i64::MAX`
/// milliseconds and takes over all others, and takes the result apart with `num_seconds` and
/// `subsec_nanos`.
#[verifier::external_body]
fn chrono_duration(secs: u64, nanos: u32) -> (r: Option<(i64, i32)>)
    requires
        nanos < 1_000_000_000,
    ensures
        r == (if secs > 9_223_372_036_854_775 || (secs == 9_223_372_036_854_775 && nanos
            > 807_000_000) {
            None
        } else {
            Some((secs as i64, nanos as i32))
        }),
{
    let std = std::time::Duration::new(secs, nanos);
    match chrono::Duration::from_std(std) {
        Ok(d) => Some((d.num_seconds(), d.subsec_nanos())),
        Err(_) => None,
    }
}

/// For how long a stored window is kept, in seconds and nanoseconds: the given time, or five
/// minutes if it is too long to be added to a date.
pub fn window_lifetime(secs: u64, nanos: u32) -> (r: (i64, i32))
    requires
        nanos < 1_000_000_000,
    ensures
        r == (if secs > 9_223_372_036_854_775 || (secs == 9_223_372_036_854_775 && nanos
            > 807_000_000) {
            (300i64, 0i32)
        } else {
            (secs as i64, nanos as i32)
        }),
{
    match chrono_duration(secs, nanos) {
        Some(lifetime) => lifetime,
        None => (300, 0),
    }
}

/// The leases of the rows that are leased are extended, in their order, and those of all other
/// rows are revoked.
pub proof fn law_every_row_is_extended_or_revoked(rows: Seq<ExtendRow>)
    ensures
        picked(rows, true) == rows.filter_map(
            |row: ExtendRow|
                if row.status is Some && row.status->0@ == "leased"@ {
                    Some(row.lease_id)
                } else {
                    None
                },
        ),
        picked(rows, false) == rows.filter_map(
            |row: ExtendRow|
                if row.status is Some && row.status->0@ == "leased"@ {
                    None
                } else {
                    Some(row.lease_id)
                },
        ),
        picked(rows, true).len() + picked(rows, false).len() == rows.len(),
    decreases rows.len(),
{
    if rows.len() > 0 {
        law_every_row_is_extended_or_revoked(rows.drop_last());
    }
}

/// As many are counted as were found.
pub proof fn law_found_are_counted(found: Seq<bool>)
    ensures
        count_found(found) == found.filter(|b: bool| b).len(),
        count_found(found) + found.filter(|b: bool| !b).len() == found.len(),
    decreases found.len(),
{
    reveal(Seq::filter);
    if found.len() > 0 {
        law_found_are_counted(found.drop_last());
    }
}

/// A signed number is taken for the unsigned one of the same bits.
pub proof fn law_unsigned_has_the_same_bits(n: i64)
    ensures
        unsigned(n) == n as int % 0x1_0000_0000_0000_0000,
{
}

/// A token is accepted only if it is the stored one and the agent is neither revoked nor disabled.
/// A wrong token is told first, a revocation next.
pub proof fn law_credentials_are_checked(
    stored: Seq<char>,
    revoked: i64,
    disabled: i64,
    token: Seq<char>,
)
    ensures
        verdict(stored, revoked, disabled, token) is Valid <==> stored == token && revoked == 0
            && disabled == 0,
        verdict(stored, revoked, disabled, token) is WrongToken <==> stored != token,
        verdict(stored, revoked, disabled, token) is Revoked <==> stored == token && revoked != 0,
        verdict(stored, revoked, disabled, token) is Disabled <==> stored == token && revoked == 0
            && disabled != 0,
{
}

/// The answer to a registration holds the new token, and the number and the times of the row: of
/// the one that was there, or of the one that was made.
pub proof fn law_registration_answers_with_its_row(
    existing: Option<AgentRow>,
    plan: Registration,
    assigned: i64,
)
    requires
        is_plan(existing, plan),
    ensures
        ({
            let response = response_of(plan, assigned);
            let wrap = 0x1_0000_0000_0000_0000int;
            &&& match existing {
                Some(row) => {
                    &&& response.agent_id == row.id as int % wrap
                    &&& response.lease_duration_ms == row.lease_duration_ms as int % wrap
                    &&& response.heartbeat_timeout_ms == row.heartbeat_timeout_ms as int % wrap
                },
                None => {
                    &&& response.agent_id == assigned as int % wrap
                    &&& response.lease_duration_ms == 60_000
                    &&& response.heartbeat_timeout_ms == 45_000
                },
            }
            &&& match plan {
                Registration::Rotate { token, .. } => response.auth_token == token,
                Registration::Create { token, .. } => response.auth_token == token,
            }
        }),
{
}

} // verus!
