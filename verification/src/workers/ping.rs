//! Ping: which requests are sent, and what is made of their outcomes.

use vstd::prelude::*;
use vstd::string::*;

use crate::control_plane::{Lease, PingSpec, TaskSpec};
use crate::net::SocketAddr;
use crate::observation::{
    bool_field, count_views, field_views, number_field, optional_address_field, optional_millis_field,
    push_field, record, text_field, Field, FieldValue, FieldView, Observation,
};
use crate::rate::{interval_of, rate_interval};
use crate::sort::{ascending, law_ascending_sorts, sorted};
use crate::workers::raw::EchoAnswer;
use crate::workers::report::{single_report, WorkerReport, WorkerReportView};
use crate::workers::trace::{failed_resolution, following, has_address, resolution_fields};

verus! {

/// Number of requests if a task does not say.
pub const DEFAULT_PING_COUNT: u32 = 4;

/// Largest number of requests.
pub const MAX_PING_COUNT: u32 = 20;

/// Time that a request has to be answered if a task does not say, in milliseconds.
pub const DEFAULT_PING_TIMEOUT_MS: u64 = 1000;

/// Requests per second if a task does not say.
pub const DEFAULT_PING_RATE: u32 = 10;

/// The port that is tried where no echo requests can be sent.
pub const SYN_PORT: u16 = 80;

/// The protocol of a request.
#[derive(Debug, Clone, Copy, PartialEq, Eq, Hash, Structural)]
pub enum PingProtocol {
    Icmp,
    TcpSyn,
}

/// Why a request was not answered.
#[derive(Debug, Clone, Copy, PartialEq, Eq, Hash, Structural)]
pub enum PingFailureReason {
    Timeout,
    Unreachable,
    Filtered,
    Error,
    Cancelled,
}

/// The name of a protocol.
pub open spec fn protocol_text(protocol: PingProtocol) -> Seq<char> {
    match protocol {
        PingProtocol::Icmp => "icmp"@,
        PingProtocol::TcpSyn => "tcp_syn"@,
    }
}

/// The name of a reason.
pub open spec fn reason_text(reason: PingFailureReason) -> Seq<char> {
    match reason {
        PingFailureReason::Timeout => "timeout"@,
        PingFailureReason::Unreachable => "unreachable"@,
        PingFailureReason::Filtered => "filtered"@,
        PingFailureReason::Error => "error"@,
        PingFailureReason::Cancelled => "cancelled"@,
    }
}

fn protocol_name(protocol: PingProtocol) -> (r: &'static str)
    ensures
        r@ == protocol_text(protocol),
{
    match protocol {
        PingProtocol::Icmp => "icmp",
        PingProtocol::TcpSyn => "tcp_syn",
    }
}

fn reason_name(reason: PingFailureReason) -> (r: &'static str)
    ensures
        r@ == reason_text(reason),
{
    match reason {
        PingFailureReason::Timeout => "timeout",
        PingFailureReason::Unreachable => "unreachable",
        PingFailureReason::Filtered => "filtered",
        PingFailureReason::Error => "error",
        PingFailureReason::Cancelled => "cancelled",
    }
}

/// What came of a request. Times are in nanoseconds.
#[derive(Debug, Clone)]
#[allow(inconsistent_fields)]
pub enum PingProbeOutcome {
    Success { address: SocketAddr, rtt: u128, bytes: usize, ttl: Option<u8> },
    FallbackSuccess { address: SocketAddr, rtt: u128 },
    Timeout { address: Option<SocketAddr>, protocol: PingProtocol },
    DestinationUnreachable {
        address: Option<SocketAddr>,
        code: u8,
        message: String,
        protocol: PingProtocol,
    },
    Filtered { address: Option<SocketAddr>, code: u8, message: String, protocol: PingProtocol },
    Error { address: Option<SocketAddr>, error: String, protocol: PingProtocol },
    Cancelled,
}

impl PingProbeOutcome {
    pub open spec fn address_of(&self) -> Option<SocketAddr> {
        match self {
            PingProbeOutcome::Success { address, .. } => Some(*address),
            PingProbeOutcome::FallbackSuccess { address, .. } => Some(*address),
            PingProbeOutcome::Timeout { address, .. } => *address,
            PingProbeOutcome::DestinationUnreachable { address, .. } => *address,
            PingProbeOutcome::Filtered { address, .. } => *address,
            PingProbeOutcome::Error { address, .. } => *address,
            PingProbeOutcome::Cancelled => None,
        }
    }

    pub open spec fn protocol_of(&self) -> PingProtocol {
        match self {
            PingProbeOutcome::Success { .. } => PingProtocol::Icmp,
            PingProbeOutcome::FallbackSuccess { .. } => PingProtocol::TcpSyn,
            PingProbeOutcome::Timeout { protocol, .. } => *protocol,
            PingProbeOutcome::DestinationUnreachable { protocol, .. } => *protocol,
            PingProbeOutcome::Filtered { protocol, .. } => *protocol,
            PingProbeOutcome::Error { protocol, .. } => *protocol,
            PingProbeOutcome::Cancelled => PingProtocol::Icmp,
        }
    }

    /// The round-trip time of an answered request.
    pub open spec fn rtt_of(&self) -> Option<u128> {
        match self {
            PingProbeOutcome::Success { rtt, .. } => Some(*rtt),
            PingProbeOutcome::FallbackSuccess { rtt, .. } => Some(*rtt),
            _ => None,
        }
    }

    pub open spec fn reason_of(&self) -> Option<PingFailureReason> {
        match self {
            PingProbeOutcome::Timeout { .. } => Some(PingFailureReason::Timeout),
            PingProbeOutcome::DestinationUnreachable { .. } => Some(PingFailureReason::Unreachable),
            PingProbeOutcome::Filtered { .. } => Some(PingFailureReason::Filtered),
            PingProbeOutcome::Error { .. } => Some(PingFailureReason::Error),
            PingProbeOutcome::Cancelled => Some(PingFailureReason::Cancelled),
            PingProbeOutcome::Success { .. } => None,
            PingProbeOutcome::FallbackSuccess { .. } => None,
        }
    }

    pub fn address(&self) -> (r: Option<SocketAddr>)
        ensures
            r == self.address_of(),
    {
        match self {
            PingProbeOutcome::Success { address, .. } => Some(*address),
            PingProbeOutcome::FallbackSuccess { address, .. } => Some(*address),
            PingProbeOutcome::Timeout { address, .. } => *address,
            PingProbeOutcome::DestinationUnreachable { address, .. } => *address,
            PingProbeOutcome::Filtered { address, .. } => *address,
            PingProbeOutcome::Error { address, .. } => *address,
            PingProbeOutcome::Cancelled => None,
        }
    }

    pub fn protocol(&self) -> (r: PingProtocol)
        ensures
            r == self.protocol_of(),
    {
        match self {
            PingProbeOutcome::Success { .. } => PingProtocol::Icmp,
            PingProbeOutcome::FallbackSuccess { .. } => PingProtocol::TcpSyn,
            PingProbeOutcome::Timeout { protocol, .. } => *protocol,
            PingProbeOutcome::DestinationUnreachable { protocol, .. } => *protocol,
            PingProbeOutcome::Filtered { protocol, .. } => *protocol,
            PingProbeOutcome::Error { protocol, .. } => *protocol,
            PingProbeOutcome::Cancelled => PingProtocol::Icmp,
        }
    }
}

/// One request and what came of it.
#[derive(Debug, Clone)]
pub struct PingObservation {
    pub attempt: u32,
    pub address: Option<SocketAddr>,
    pub protocol: PingProtocol,
    pub outcome: PingProbeOutcome,
}

/// The address, if there is one.
pub open spec fn address_view(address: Option<SocketAddr>) -> FieldView {
    match address {
        Some(a) => FieldView::Address(a),
        None => FieldView::Null,
    }
}

impl PingObservation {
    pub open spec fn of(attempt: u32, outcome: PingProbeOutcome) -> PingObservation {
        PingObservation {
            attempt,
            address: outcome.address_of(),
            protocol: outcome.protocol_of(),
            outcome,
        }
    }

    pub open spec fn succeeded(&self) -> bool {
        self.outcome.rtt_of() is Some
    }

    /// What is reported first of every request but a cancelled one.
    pub open spec fn head_fields(&self) -> Seq<(Seq<char>, FieldView)> {
        seq![
            ("attempt"@, FieldView::Number(self.attempt as u64)),
            ("success"@, FieldView::Bool(self.succeeded())),
            ("protocol"@, FieldView::Text(protocol_text(self.protocol))),
            ("address"@, address_view(self.address)),
        ]
    }

    /// What is reported of a request.
    pub open spec fn fields(&self) -> Seq<(Seq<char>, FieldView)> {
        match self.outcome {
            PingProbeOutcome::Success { rtt, bytes, ttl, .. } => self.head_fields().push(
                ("rtt_ms"@, FieldView::Millis(rtt)),
            ).push(("bytes"@, FieldView::Number(bytes as u64))).push(
                (
                    "ttl"@,
                    match ttl {
                        Some(n) => FieldView::Number(n as u64),
                        None => FieldView::Null,
                    },
                ),
            ),
            PingProbeOutcome::FallbackSuccess { rtt, .. } => self.head_fields().push(
                ("rtt_ms"@, FieldView::Millis(rtt)),
            ),
            PingProbeOutcome::Timeout { .. } => self.head_fields().push(
                ("reason"@, FieldView::Text("timeout"@)),
            ),
            PingProbeOutcome::DestinationUnreachable { code, message, .. } =>
                self.head_fields().push(("reason"@, FieldView::Text("unreachable"@))).push(
                ("code"@, FieldView::Number(code as u64)),
            ).push(("message"@, FieldView::Text(message@))),
            PingProbeOutcome::Filtered { code, message, .. } => self.head_fields().push(
                ("reason"@, FieldView::Text("filtered"@)),
            ).push(("code"@, FieldView::Number(code as u64))).push(
                ("message"@, FieldView::Text(message@)),
            ),
            PingProbeOutcome::Error { error, .. } => self.head_fields().push(
                ("reason"@, FieldView::Text("error"@)),
            ).push(("message"@, FieldView::Text(error@))),
            PingProbeOutcome::Cancelled => seq![
                ("attempt"@, FieldView::Number(self.attempt as u64)),
                ("success"@, FieldView::Bool(false)),
                ("protocol"@, FieldView::Text(protocol_text(self.protocol))),
                ("reason"@, FieldView::Text("cancelled"@)),
            ],
        }
    }

    pub fn from_outcome(attempt: u32, outcome: PingProbeOutcome) -> (r: PingObservation)
        ensures
            r == PingObservation::of(attempt, outcome),
    {
        let address: Option<SocketAddr> = outcome.address();
        let protocol: PingProtocol = outcome.protocol();
        PingObservation { attempt, address, protocol, outcome }
    }

    pub fn is_success(&self) -> (r: bool)
        ensures
            r == self.succeeded(),
    {
        match &self.outcome {
            PingProbeOutcome::Success { .. } => true,
            PingProbeOutcome::FallbackSuccess { .. } => true,
            _ => false,
        }
    }

    /// The round-trip time in nanoseconds.
    pub fn elapsed(&self) -> (r: Option<u128>)
        ensures
            r == self.outcome.rtt_of(),
    {
        match &self.outcome {
            PingProbeOutcome::Success { rtt, .. } => Some(*rtt),
            PingProbeOutcome::FallbackSuccess { rtt, .. } => Some(*rtt),
            _ => None,
        }
    }

    pub fn reason(&self) -> (r: Option<PingFailureReason>)
        ensures
            r == self.outcome.reason_of(),
    {
        match &self.outcome {
            PingProbeOutcome::Timeout { .. } => Some(PingFailureReason::Timeout),
            PingProbeOutcome::DestinationUnreachable { .. } => Some(PingFailureReason::Unreachable),
            PingProbeOutcome::Filtered { .. } => Some(PingFailureReason::Filtered),
            PingProbeOutcome::Error { .. } => Some(PingFailureReason::Error),
            PingProbeOutcome::Cancelled => Some(PingFailureReason::Cancelled),
            PingProbeOutcome::Success { .. } => None,
            PingProbeOutcome::FallbackSuccess { .. } => None,
        }
    }

    /// What is reported of the request.
    pub fn into_observation(self) -> (r: Observation)
        ensures
            r.is_record("ping_attempt"@, self.fields()),
    {
        let mut fields: Vec<Field> = Vec::new();
        let success: bool = self.is_success();
        push_field(&mut fields, number_field("attempt", self.attempt as u64));
        push_field(&mut fields, bool_field("success", success));
        push_field(&mut fields, text_field("protocol", protocol_name(self.protocol)));
        let cancelled: bool = match &self.outcome {
            PingProbeOutcome::Cancelled => true,
            _ => false,
        };
        if !cancelled {
            push_field(&mut fields, optional_address_field("address", self.address));
        }
        match &self.outcome {
            PingProbeOutcome::Success { rtt, bytes, ttl, .. } => {
                push_field(&mut fields, optional_millis_field("rtt_ms", Some(*rtt)));
                push_field(&mut fields, number_field("bytes", *bytes as u64));
                match ttl {
                    Some(n) => {
                        push_field(&mut fields, number_field("ttl", *n as u64));
                    },
                    None => {
                        push_field(&mut fields, Field { key: "ttl", value: FieldValue::Null });
                    },
                }
            },
            PingProbeOutcome::FallbackSuccess { rtt, .. } => {
                push_field(&mut fields, optional_millis_field("rtt_ms", Some(*rtt)));
            },
            PingProbeOutcome::Timeout { .. } => {
                push_field(&mut fields, text_field("reason", "timeout"));
            },
            PingProbeOutcome::DestinationUnreachable { code, message, .. } => {
                push_field(&mut fields, text_field("reason", "unreachable"));
                push_field(&mut fields, number_field("code", *code as u64));
                push_field(&mut fields, text_field("message", message.as_str()));
            },
            PingProbeOutcome::Filtered { code, message, .. } => {
                push_field(&mut fields, text_field("reason", "filtered"));
                push_field(&mut fields, number_field("code", *code as u64));
                push_field(&mut fields, text_field("message", message.as_str()));
            },
            PingProbeOutcome::Error { error, .. } => {
                push_field(&mut fields, text_field("reason", "error"));
                push_field(&mut fields, text_field("message", error.as_str()));
            },
            PingProbeOutcome::Cancelled => {
                push_field(&mut fields, text_field("reason", "cancelled"));
            },
        }
        assert(field_views(fields@) =~= self.fields());
        record("ping_attempt", fields)
    }
}

/// The round-trip times of the answered requests, in their order.
pub open spec fn rtts(attempts: Seq<PingObservation>) -> Seq<u128>
    decreases attempts.len(),
{
    if attempts.len() == 0 {
        Seq::empty()
    } else {
        match attempts.last().outcome.rtt_of() {
            Some(rtt) => rtts(attempts.drop_last()).push(rtt),
            None => rtts(attempts.drop_last()),
        }
    }
}

/// How many requests failed for `reason`.
pub open spec fn failures(attempts: Seq<PingObservation>, reason: PingFailureReason) -> nat
    decreases attempts.len(),
{
    if attempts.len() == 0 {
        0
    } else {
        failures(attempts.drop_last(), reason) + if attempts.last().outcome.reason_of() == Some(
            reason,
        ) {
            1nat
        } else {
            0
        }
    }
}

/// Index of the first answered request, or the number of requests if none was answered.
pub open spec fn first_success(attempts: Seq<PingObservation>) -> int
    decreases attempts.len(),
{
    if attempts.len() == 0 || attempts[0].succeeded() {
        0
    } else {
        1 + first_success(attempts.skip(1))
    }
}

/// The protocol of the first answered request, or else of the first request.
pub open spec fn summary_protocol(attempts: Seq<PingObservation>) -> Option<PingProtocol> {
    if attempts.len() == 0 {
        None
    } else if first_success(attempts) < attempts.len() {
        Some(attempts[first_success(attempts)].protocol)
    } else {
        Some(attempts[0].protocol)
    }
}

/// `list` with the count of `reason`, if it is not zero.
pub open spec fn with_count(
    list: Seq<(Seq<char>, u32)>,
    attempts: Seq<PingObservation>,
    reason: PingFailureReason,
) -> Seq<(Seq<char>, u32)> {
    if failures(attempts, reason) == 0 {
        list
    } else {
        list.push((reason_text(reason), failures(attempts, reason) as u32))
    }
}

/// How many requests failed for each reason.
pub open spec fn reason_counts(attempts: Seq<PingObservation>) -> Seq<(Seq<char>, u32)> {
    let t = with_count(Seq::empty(), attempts, PingFailureReason::Timeout);
    let u = with_count(t, attempts, PingFailureReason::Unreachable);
    let f = with_count(u, attempts, PingFailureReason::Filtered);
    let e = with_count(f, attempts, PingFailureReason::Error);
    with_count(e, attempts, PingFailureReason::Cancelled)
}

/// The summary of a ping.
pub open spec fn summary_fields(attempts: Seq<PingObservation>, cancelled: bool) -> Seq<
    (Seq<char>, FieldView),
> {
    let times = ascending(rtts(attempts));
    let sent = attempts.len();
    let received = times.len();
    seq![
        ("success"@, FieldView::Bool(received > 0)),
        ("sent"@, FieldView::Number(sent as u64)),
        ("received"@, FieldView::Number(received as u64)),
        (
            "loss_pct"@,
            FieldView::Percent { part: (sent - received) as u32, whole: sent as u32 },
        ),
        (
            "min_rtt_ms"@,
            if received == 0 {
                FieldView::Null
            } else {
                FieldView::Millis(times.first())
            },
        ),
        (
            "max_rtt_ms"@,
            if received == 0 {
                FieldView::Null
            } else {
                FieldView::Millis(times.last())
            },
        ),
        (
            "avg_rtt_ms"@,
            if received == 0 {
                FieldView::Null
            } else {
                FieldView::MeanMillis(times)
            },
        ),
        (
            "stddev_rtt_ms"@,
            if received == 0 {
                FieldView::Null
            } else {
                FieldView::DeviationMillis(times)
            },
        ),
        (
            "protocol"@,
            match summary_protocol(attempts) {
                Some(protocol) => FieldView::Text(protocol_text(protocol)),
                None => FieldView::Null,
            },
        ),
        ("reasons"@, FieldView::Counts(reason_counts(attempts))),
        ("cancelled"@, FieldView::Bool(cancelled)),
    ]
}

/// The requests of a ping and what came of them.
#[derive(Debug, Clone)]
pub struct PingOutcome {
    pub attempts: Vec<PingObservation>,
    pub cancelled: bool,
}

proof fn lemma_rtts_bounded(attempts: Seq<PingObservation>)
    ensures
        rtts(attempts).len() <= attempts.len(),
    decreases attempts.len(),
{
    if attempts.len() > 0 {
        lemma_rtts_bounded(attempts.drop_last());
    }
}

proof fn lemma_first_success(attempts: Seq<PingObservation>)
    ensures
        0 <= first_success(attempts) <= attempts.len(),
        first_success(attempts) < attempts.len() ==> attempts[first_success(attempts)].succeeded(),
        forall|i: int| 0 <= i < first_success(attempts) ==> !attempts[i].succeeded(),
    decreases attempts.len(),
{
    if attempts.len() == 0 || attempts[0].succeeded() {
    } else {
        lemma_first_success(attempts.skip(1));
        assert forall|i: int| 0 <= i < first_success(attempts) implies !attempts[i].succeeded() by {
            if i > 0 {
                assert(attempts[i] == attempts.skip(1)[i - 1]);
            }
        }
    }
}

fn clone_times(times: &Vec<u128>) -> (r: Vec<u128>)
    ensures
        r@ == times@,
{
    let mut r: Vec<u128> = Vec::new();
    let mut i: usize = 0;
    while i < times.len()
        invariant
            i <= times.len(),
            r@ == times@.take(i as int),
        decreases times.len() - i,
    {
        r.push(times[i]);
        i = i + 1;
        assert(r@ =~= times@.take(i as int));
    }
    assert(r@ =~= times@);
    r
}

impl PingOutcome {
    pub fn new(capacity: usize) -> (r: PingOutcome)
        ensures
            r.attempts@ == Seq::<PingObservation>::empty(),
            !r.cancelled,
    {
        PingOutcome { attempts: Vec::with_capacity(capacity), cancelled: false }
    }

    pub fn record(&mut self, observation: PingObservation)
        ensures
            final(self).attempts@ == old(self).attempts@.push(observation),
            final(self).cancelled == old(self).cancelled,
    {
        self.attempts.push(observation);
    }

    pub fn mark_cancelled(&mut self)
        ensures
            final(self).attempts == old(self).attempts,
            final(self).cancelled,
    {
        self.cancelled = true;
    }

    pub fn is_cancelled(&self) -> (r: bool)
        ensures
            r == self.cancelled,
    {
        self.cancelled
    }

    fn count(&self, reason: PingFailureReason) -> (r: u32)
        requires
            self.attempts.len() <= u32::MAX,
        ensures
            r == failures(self.attempts@, reason),
    {
        let ghost all = self.attempts@;
        let mut n: u32 = 0;
        let mut i: usize = 0;
        while i < self.attempts.len()
            invariant
                i <= self.attempts.len() <= u32::MAX,
                all == self.attempts@,
                n == failures(all.take(i as int), reason),
                n <= i,
            decreases self.attempts.len() - i,
        {
            let same: bool = match self.attempts[i].reason() {
                Some(found) => found == reason,
                None => false,
            };
            assert(all.take(i + 1).drop_last() =~= all.take(i as int));
            if same {
                n = n + 1;
            }
            i = i + 1;
        }
        assert(all.take(i as int) =~= all);
        n
    }

    fn times(&self) -> (r: Vec<u128>)
        ensures
            r@ == rtts(self.attempts@),
    {
        let ghost all = self.attempts@;
        let mut r: Vec<u128> = Vec::new();
        let mut i: usize = 0;
        while i < self.attempts.len()
            invariant
                i <= self.attempts.len(),
                all == self.attempts@,
                r@ == rtts(all.take(i as int)),
            decreases self.attempts.len() - i,
        {
            assert(all.take(i + 1).drop_last() =~= all.take(i as int));
            if let Some(rtt) = self.attempts[i].elapsed() {
                r.push(rtt);
            }
            i = i + 1;
        }
        assert(all.take(i as int) =~= all);
        r
    }

    fn common_protocol(&self) -> (r: Option<PingProtocol>)
        ensures
            r == summary_protocol(self.attempts@),
    {
        let ghost all = self.attempts@;
        proof {
            lemma_first_success(all);
        }
        let mut i: usize = 0;
        while i < self.attempts.len()
            invariant
                i <= self.attempts.len(),
                all == self.attempts@,
                i <= first_success(all) <= all.len(),
                first_success(all) < all.len() ==> all[first_success(all)].succeeded(),
                forall|k: int| 0 <= k < first_success(all) ==> !all[k].succeeded(),
            decreases self.attempts.len() - i,
        {
            if self.attempts[i].is_success() {
                assert(all[i as int].succeeded());
                return Some(self.attempts[i].protocol);
            }
            i = i + 1;
        }
        if self.attempts.len() > 0 {
            Some(self.attempts[0].protocol)
        } else {
            None
        }
    }

    fn push_count(&self, counts: &mut Vec<(String, u32)>, reason: PingFailureReason)
        requires
            self.attempts.len() <= u32::MAX,
        ensures
            count_views(final(counts)@) == with_count(
                count_views(old(counts)@),
                self.attempts@,
                reason,
            ),
    {
        let ghost before = counts@;
        let n: u32 = self.count(reason);
        if n > 0 {
            counts.push((reason_name(reason).to_string(), n));
            assert(count_views(counts@) =~= count_views(before).push((reason_text(reason), n)));
        }
    }

    fn counts(&self) -> (r: Vec<(String, u32)>)
        requires
            self.attempts.len() <= u32::MAX,
        ensures
            count_views(r@) == reason_counts(self.attempts@),
    {
        let mut r: Vec<(String, u32)> = Vec::new();
        assert(count_views(r@) =~= Seq::empty());
        self.push_count(&mut r, PingFailureReason::Timeout);
        self.push_count(&mut r, PingFailureReason::Unreachable);
        self.push_count(&mut r, PingFailureReason::Filtered);
        self.push_count(&mut r, PingFailureReason::Error);
        self.push_count(&mut r, PingFailureReason::Cancelled);
        r
    }

    /// The summary of the ping.
    pub fn summary_observation(&self) -> (r: Observation)
        requires
            self.attempts.len() <= u32::MAX,
        ensures
            r.is_record("ping_summary"@, summary_fields(self.attempts@, self.cancelled)),
    {
        let times: Vec<u128> = sorted(&self.times());
        proof {
            lemma_rtts_bounded(self.attempts@);
            law_ascending_sorts(rtts(self.attempts@));
        }
        let sent: usize = self.attempts.len();
        let received: usize = times.len();
        let mut fields: Vec<Field> = Vec::new();
        push_field(&mut fields, bool_field("success", received > 0));
        push_field(&mut fields, number_field("sent", sent as u64));
        push_field(&mut fields, number_field("received", received as u64));
        push_field(
            &mut fields,
            Field {
                key: "loss_pct",
                value: FieldValue::Percent { part: (sent - received) as u32, whole: sent as u32 },
            },
        );
        let (first, last): (Option<u128>, Option<u128>) = if received == 0 {
            (None, None)
        } else {
            (Some(times[0]), Some(times[received - 1]))
        };
        push_field(&mut fields, optional_millis_field("min_rtt_ms", first));
        push_field(&mut fields, optional_millis_field("max_rtt_ms", last));
        let (mean, deviation): (FieldValue, FieldValue) = if received == 0 {
            (FieldValue::Null, FieldValue::Null)
        } else {
            (FieldValue::MeanMillis(clone_times(&times)), FieldValue::DeviationMillis(times))
        };
        push_field(&mut fields, Field { key: "avg_rtt_ms", value: mean });
        push_field(&mut fields, Field { key: "stddev_rtt_ms", value: deviation });
        let protocol: FieldValue = match self.common_protocol() {
            Some(protocol) => FieldValue::Text(protocol_name(protocol).to_string()),
            None => FieldValue::Null,
        };
        push_field(&mut fields, Field { key: "protocol", value: protocol });
        push_field(&mut fields, Field { key: "reasons", value: FieldValue::Counts(self.counts()) });
        push_field(&mut fields, bool_field("cancelled", self.cancelled));
        assert(field_views(fields@) =~= summary_fields(self.attempts@, self.cancelled));
        record("ping_summary", fields)
    }

    /// One observation for each request, and the summary.
    pub fn into_observations(self) -> (r: Vec<Observation>)
        requires
            self.attempts.len() <= u32::MAX,
        ensures
            r@.len() == self.attempts@.len() + 1,
            forall|i: int|
                0 <= i < self.attempts@.len() ==> (#[trigger] r@[i]).is_record(
                    "ping_attempt"@,
                    self.attempts@[i].fields(),
                ),
            r@.last().is_record("ping_summary"@, summary_fields(self.attempts@, self.cancelled)),
    {
        let summary: Observation = self.summary_observation();
        let ghost all = self.attempts@;
        let mut left: Vec<PingObservation> = self.attempts;
        let mut r: Vec<Observation> = Vec::new();
        let ghost mut done: int = 0;
        assert(all.skip(0) =~= all);
        while left.len() > 0
            invariant
                0 <= done <= all.len(),
                left@ == all.skip(done),
                r@.len() == done,
                forall|i: int|
                    0 <= i < done ==> (#[trigger] r@[i]).is_record(
                        "ping_attempt"@,
                        all[i].fields(),
                    ),
            decreases left.len(),
        {
            let attempt: PingObservation = left.remove(0);
            proof {
                assert(attempt == all[done]);
                assert(left@ =~= all.skip(done + 1));
                done = done + 1;
            }
            r.push(attempt.into_observation());
        }
        r.push(summary);
        r
    }
}

/// The summary counts every request as answered or as failed for one reason.
pub proof fn law_summary_counts_every_request(attempts: Seq<PingObservation>)
    ensures
        rtts(attempts).len() + failures(attempts, PingFailureReason::Timeout) + failures(
            attempts,
            PingFailureReason::Unreachable,
        ) + failures(attempts, PingFailureReason::Filtered) + failures(
            attempts,
            PingFailureReason::Error,
        ) + failures(attempts, PingFailureReason::Cancelled) == attempts.len(),
    decreases attempts.len(),
{
    if attempts.len() > 0 {
        law_summary_counts_every_request(attempts.drop_last());
    }
}

/// The shortest and the longest round-trip time of a summary bound all of them.
pub proof fn law_summary_bounds_times(attempts: Seq<PingObservation>, rtt: u128)
    requires
        rtts(attempts).contains(rtt),
    ensures
        ascending(rtts(attempts)).first() <= rtt <= ascending(rtts(attempts)).last(),
{
    broadcast use vstd::seq_lib::group_to_multiset_ensures;

    let times = rtts(attempts);
    law_ascending_sorts(times);
    assert(times.to_multiset().count(rtt) > 0);
    assert(ascending(times).contains(rtt));
    let i = choose|i: int| 0 <= i < ascending(times).len() && ascending(times)[i] == rtt;
    assert(ascending(times)[0] <= ascending(times)[i]);
    assert(ascending(times)[i] <= ascending(times)[ascending(times).len() - 1]);
}

/// How a ping is carried out. Times are in nanoseconds.
#[derive(Debug, Clone, Copy, PartialEq, Eq, Structural)]
pub struct PingPlan {
    pub count: u32,
    pub timeout: u128,
    pub rate: u32,
    pub interval: u128,
}

/// The plan for a task: at least one request and at most [`MAX_PING_COUNT`], and the time
/// between them from the task or from its rate.
pub open spec fn plan_of(spec: PingSpec) -> PingPlan {
    let asked = match spec.count {
        Some(n) => n,
        None => DEFAULT_PING_COUNT,
    };
    let rate = match spec.rate_limit_per_sec {
        Some(0) => 1u32,
        Some(n) => n,
        None => DEFAULT_PING_RATE,
    };
    let timeout_ms = match spec.timeout_ms {
        Some(ms) => ms,
        None => DEFAULT_PING_TIMEOUT_MS,
    };
    PingPlan {
        count: if asked < 1 {
            1
        } else if asked > MAX_PING_COUNT {
            MAX_PING_COUNT
        } else {
            asked
        },
        timeout: (timeout_ms * 1_000_000) as u128,
        rate,
        interval: match spec.interval_ms {
            Some(ms) => (ms * 1_000_000) as u128,
            None => interval_of(rate as nat) as u128,
        },
    }
}

/// Plans a ping.
pub fn ping_plan(spec: &PingSpec) -> (r: PingPlan)
    ensures
        r == plan_of(*spec),
{
    let asked: u32 = match spec.count {
        Some(n) => n,
        None => DEFAULT_PING_COUNT,
    };
    let count: u32 = if asked < 1 {
        1
    } else if asked > MAX_PING_COUNT {
        MAX_PING_COUNT
    } else {
        asked
    };
    let timeout_ms: u64 = match spec.timeout_ms {
        Some(ms) => ms,
        None => DEFAULT_PING_TIMEOUT_MS,
    };
    let rate: u32 = match spec.rate_limit_per_sec {
        Some(n) => if n == 0 {
            1
        } else {
            n
        },
        None => DEFAULT_PING_RATE,
    };
    let interval: u128 = match spec.interval_ms {
        Some(ms) => (ms as u128) * 1_000_000,
        None => rate_interval(rate as u64),
    };
    PingPlan { count, timeout: (timeout_ms as u128) * 1_000_000, rate, interval }
}

/// A request that is to be sent.
#[derive(Debug, Clone, Copy, PartialEq, Eq, Structural)]
pub struct PingRequest {
    pub address: SocketAddr,
    pub sequence: u16,
    /// Time to answer in nanoseconds.
    pub timeout: u128,
}

/// What a ping waits for.
#[derive(Debug, Clone, Copy, PartialEq, Eq, Structural)]
pub enum PingPhase {
    /// The next request may be sent.
    Ready,
    /// A request is under way.
    Waiting,
    Finished,
}

/// The contents of a [`PingSession`].
pub struct PingView {
    pub addresses: Seq<SocketAddr>,
    pub count: u32,
    pub timeout: u128,
    pub attempts: Seq<PingObservation>,
    pub cancelled: bool,
    pub phase: PingPhase,
}

impl PingView {
    pub open spec fn wf(self) -> bool {
        &&& self.addresses.len() > 0
        &&& 1 <= self.count <= MAX_PING_COUNT
        &&& self.attempts.len() <= self.count
        &&& !(self.phase is Finished) ==> self.attempts.len() < self.count
        &&& forall|i: int|
            0 <= i < self.attempts.len() ==> (#[trigger] self.attempts[i]).attempt == i
    }

    pub open spec fn start(addresses: Seq<SocketAddr>, plan: PingPlan) -> PingView {
        PingView {
            addresses,
            count: plan.count,
            timeout: plan.timeout,
            attempts: Seq::empty(),
            cancelled: false,
            phase: PingPhase::Ready,
        }
    }

    /// The next request, if one is due: the addresses take turns, and the requests are numbered.
    pub open spec fn request(self, cancelled: bool) -> Option<PingRequest> {
        if self.phase != PingPhase::Ready || cancelled {
            None
        } else {
            Some(
                PingRequest {
                    address: self.addresses[self.attempts.len() as int
                        % self.addresses.len() as int],
                    sequence: self.attempts.len() as u16,
                    timeout: self.timeout,
                },
            )
        }
    }

    /// The ping after the next request was asked for. A cancelled ping sends no other one.
    pub open spec fn asked(self, cancelled: bool) -> PingView {
        if self.phase != PingPhase::Ready {
            self
        } else if cancelled {
            PingView { cancelled: true, phase: PingPhase::Finished, ..self }
        } else {
            PingView { phase: PingPhase::Waiting, ..self }
        }
    }

    /// The ping after the outcome of the request that was under way.
    pub open spec fn observed(self, outcome: PingProbeOutcome) -> PingView {
        if self.phase != PingPhase::Waiting {
            self
        } else {
            PingView {
                attempts: self.attempts.push(
                    PingObservation::of(self.attempts.len() as u32, outcome),
                ),
                phase: if self.attempts.len() + 1 >= self.count {
                    PingPhase::Finished
                } else {
                    PingPhase::Ready
                },
                ..self
            }
        }
    }
}

/// A ping under way.
pub struct PingSession {
    lease_id: u64,
    addresses: Vec<SocketAddr>,
    count: u32,
    timeout: u128,
    outcome: PingOutcome,
    phase: PingPhase,
}

impl View for PingSession {
    type V = PingView;

    closed spec fn view(&self) -> PingView {
        PingView {
            addresses: self.addresses@,
            count: self.count,
            timeout: self.timeout,
            attempts: self.outcome.attempts@,
            cancelled: self.outcome.cancelled,
            phase: self.phase,
        }
    }
}

impl PingSession {
    pub closed spec fn lease(&self) -> u64 {
        self.lease_id
    }

    /// Starts a ping of a host with at least one address.
    pub fn new(lease_id: u64, plan: PingPlan, addresses: Vec<SocketAddr>) -> (r: PingSession)
        requires
            addresses.len() > 0,
            1 <= plan.count <= MAX_PING_COUNT,
        ensures
            r@ == PingView::start(addresses@, plan),
            r@.wf(),
            r.lease() == lease_id,
    {
        PingSession {
            lease_id,
            addresses,
            count: plan.count,
            timeout: plan.timeout,
            outcome: PingOutcome::new(plan.count as usize),
            phase: PingPhase::Ready,
        }
    }

    /// The next request to send, if one is due.
    pub fn next_request(&mut self, cancelled: bool) -> (r: Option<PingRequest>)
        requires
            old(self)@.wf(),
        ensures
            r == old(self)@.request(cancelled),
            final(self)@ == old(self)@.asked(cancelled),
            final(self)@.wf(),
            final(self).lease() == old(self).lease(),
    {
        if self.phase != PingPhase::Ready {
            return None;
        }
        if cancelled {
            self.outcome.mark_cancelled();
            self.phase = PingPhase::Finished;
            return None;
        }
        let index: usize = self.outcome.attempts.len();
        self.phase = PingPhase::Waiting;
        Some(
            PingRequest {
                address: self.addresses[index % self.addresses.len()],
                sequence: index as u16,
                timeout: self.timeout,
            },
        )
    }

    /// Takes the outcome of the request that was under way.
    pub fn observe(&mut self, outcome: PingProbeOutcome)
        requires
            old(self)@.wf(),
        ensures
            final(self)@ == old(self)@.observed(outcome),
            final(self)@.wf(),
            final(self).lease() == old(self).lease(),
    {
        if self.phase != PingPhase::Waiting {
            return ;
        }
        let index: u32 = self.outcome.attempts.len() as u32;
        self.outcome.record(PingObservation::from_outcome(index, outcome));
        self.phase = if index + 1 >= self.count {
            PingPhase::Finished
        } else {
            PingPhase::Ready
        };
    }

    /// Reports the ping: the lease is cancelled if the ping was.
    pub fn into_report(self) -> (r: WorkerReport)
        requires
            self@.wf(),
        ensures
            ({
                let v = self@;
                let observations = r@.observations(v.cancelled);
                &&& r@.is_single(self.lease(), v.cancelled)
                &&& observations.len() == v.attempts.len() + 1
                &&& forall|i: int|
                    0 <= i < v.attempts.len() ==> (#[trigger] observations[i]).is_record(
                        "ping_attempt"@,
                        v.attempts[i].fields(),
                    )
                &&& observations.last().is_record(
                    "ping_summary"@,
                    summary_fields(v.attempts, v.cancelled),
                )
            }),
    {
        let cancelled: bool = self.outcome.is_cancelled();
        let observations: Vec<Observation> = self.outcome.into_observations();
        single_report(self.lease_id, cancelled, observations)
    }
}

/// A ping sends at most as many requests as it was asked for, and never more than 20.
pub proof fn law_ping_budget(ping: PingView)
    requires
        ping.wf(),
    ensures
        ping.attempts.len() <= ping.count <= 20,
{
}

/// Every outcome brings a ping forward.
pub proof fn law_ping_makes_progress(ping: PingView, outcome: PingProbeOutcome)
    requires
        ping.wf(),
        ping.phase is Waiting,
    ensures
        ping.observed(outcome).attempts.len() == ping.attempts.len() + 1,
        ping.observed(outcome).attempts.last().outcome == outcome,
        ping.observed(outcome).phase is Finished <==> ping.attempts.len() + 1 == ping.count,
{
}

/// What a worker does with a ping lease.
pub enum PingStart {
    /// The lease is over.
    Report(WorkerReport),
    /// The host is to be resolved.
    Resolve { lease_id: u64, spec: PingSpec },
    /// The lease holds another kind of task.
    Unexpected(TaskSpec),
}

/// Starts on a lease. A lease that was cancelled is reported at once.
pub fn begin_ping(lease: Lease, cancelled: bool) -> (r: PingStart)
    ensures
        if cancelled {
            r is Report && r->Report_0@ == WorkerReportView::only_cancelled(lease.lease_id)
        } else {
            match lease.spec {
                TaskSpec::Ping(spec) => r == (PingStart::Resolve { lease_id: lease.lease_id, spec }),
                other => r == PingStart::Unexpected(other),
            }
        },
{
    if cancelled {
        return PingStart::Report(WorkerReport::cancelled(lease.lease_id));
    }
    match lease.spec {
        TaskSpec::Ping(spec) => PingStart::Resolve { lease_id: lease.lease_id, spec },
        other => PingStart::Unexpected(other),
    }
}

/// The addresses that a ping goes to. Without any, the lease is completed with the reason.
pub fn ping_targets(
    lease_id: u64,
    host: &str,
    addresses: Result<Vec<SocketAddr>, String>,
) -> (r: Result<Vec<SocketAddr>, WorkerReport>)
    ensures
        if has_address(addresses) {
            r == Ok::<Vec<SocketAddr>, WorkerReport>(addresses->Ok_0)
        } else {
            &&& r is Err
            &&& r->Err_0@.is_single(lease_id, false)
            &&& r->Err_0@.observations(false).len() == 1
            &&& r->Err_0@.observations(false)[0].is_record(
                "ping_resolution"@,
                resolution_fields(host@, addresses),
            )
        },
{
    let error: String = match addresses {
        Ok(found) => {
            if found.len() > 0 {
                return Ok(found);
            }
            "no addresses resolved".to_string()
        },
        Err(error) => error,
    };
    assert(resolution_fields(host@, addresses) =~= seq![
        ("host"@, FieldView::Text(host@)),
        ("error"@, FieldView::Text(error@)),
    ]);
    Err(failed_resolution("ping_resolution", lease_id, host, error))
}

/// What came of an echo request. Times are in nanoseconds.
#[derive(Debug, Clone)]
pub enum IcmpOutcome {
    Echo { rtt: u128, bytes: usize, ttl: Option<u8> },
    Timeout,
    DestinationUnreachable { code: u8, message: String },
    Filtered { code: u8, message: String },
    Cancelled,
}

/// What an answer that came after `elapsed` nanoseconds means.
pub fn echo_outcome(answer: EchoAnswer, elapsed: u128) -> (r: IcmpOutcome)
    ensures
        r == match answer {
            EchoAnswer::Echo { bytes, ttl } => IcmpOutcome::Echo {
                rtt: elapsed,
                bytes,
                ttl: Some(ttl),
            },
            EchoAnswer::Unreachable { code, message } => IcmpOutcome::DestinationUnreachable {
                code,
                message,
            },
            EchoAnswer::Filtered { code, message } => IcmpOutcome::Filtered { code, message },
        },
{
    match answer {
        EchoAnswer::Echo { bytes, ttl } => IcmpOutcome::Echo {
            rtt: elapsed,
            bytes,
            ttl: Some(ttl),
        },
        EchoAnswer::Unreachable { code, message } => IcmpOutcome::DestinationUnreachable {
            code,
            message,
        },
        EchoAnswer::Filtered { code, message } => IcmpOutcome::Filtered { code, message },
    }
}

/// What is to be done next about an answer that has not come yet.
#[derive(Debug, Clone, Copy, PartialEq, Eq, Structural)]
pub enum ReceiveStep {
    /// Wait for at most this many nanoseconds.
    Wait(u128),
    TimedOut,
    Cancelled,
}

/// Decides whether to wait on for an answer that is due by `deadline`.
pub fn receive_step(now: u128, deadline: u128, cancelled: bool) -> (r: ReceiveStep)
    ensures
        r == (if cancelled {
            ReceiveStep::Cancelled
        } else if now >= deadline {
            ReceiveStep::TimedOut
        } else {
            ReceiveStep::Wait((deadline - now) as u128)
        }),
{
    if cancelled {
        ReceiveStep::Cancelled
    } else if now >= deadline {
        ReceiveStep::TimedOut
    } else {
        ReceiveStep::Wait(deadline - now)
    }
}

/// The outcome of the request to `address` that an echo request stands for.
pub fn probe_outcome(address: SocketAddr, outcome: IcmpOutcome) -> (r: PingProbeOutcome)
    ensures
        r == match outcome {
            IcmpOutcome::Echo { rtt, bytes, ttl } => PingProbeOutcome::Success {
                address,
                rtt,
                bytes,
                ttl,
            },
            IcmpOutcome::Timeout => PingProbeOutcome::Timeout {
                address: Some(address),
                protocol: PingProtocol::Icmp,
            },
            IcmpOutcome::DestinationUnreachable {
                code,
                message,
            } => PingProbeOutcome::DestinationUnreachable {
                address: Some(address),
                code,
                message,
                protocol: PingProtocol::Icmp,
            },
            IcmpOutcome::Filtered { code, message } => PingProbeOutcome::Filtered {
                address: Some(address),
                code,
                message,
                protocol: PingProtocol::Icmp,
            },
            IcmpOutcome::Cancelled => PingProbeOutcome::Cancelled,
        },
{
    match outcome {
        IcmpOutcome::Echo { rtt, bytes, ttl } => PingProbeOutcome::Success {
            address,
            rtt,
            bytes,
            ttl,
        },
        IcmpOutcome::Timeout => PingProbeOutcome::Timeout {
            address: Some(address),
            protocol: PingProtocol::Icmp,
        },
        IcmpOutcome::DestinationUnreachable { code, message } =>
            PingProbeOutcome::DestinationUnreachable {
            address: Some(address),
            code,
            message,
            protocol: PingProtocol::Icmp,
        },
        IcmpOutcome::Filtered { code, message } => PingProbeOutcome::Filtered {
            address: Some(address),
            code,
            message,
            protocol: PingProtocol::Icmp,
        },
        IcmpOutcome::Cancelled => PingProbeOutcome::Cancelled,
    }
}

/// What came of an attempt to connect.
#[derive(Debug, Clone)]
pub enum ConnectOutcome {
    Connected { rtt: u128 },
    Failed { error: String },
    TimedOut,
    Cancelled,
}

/// Where to connect instead of sending an echo request to `address`.
pub fn syn_target(address: SocketAddr) -> (r: SocketAddr)
    ensures
        r == (SocketAddr { ip: address.ip, port: SYN_PORT, flowinfo: 0, scope_id: 0 }),
{
    SocketAddr::new(address.ip, SYN_PORT)
}

/// The outcome of the request that an attempt to connect to `target` stands for.
pub fn syn_outcome(target: SocketAddr, outcome: ConnectOutcome) -> (r: PingProbeOutcome)
    ensures
        r == match outcome {
            ConnectOutcome::Connected { rtt } => PingProbeOutcome::FallbackSuccess {
                address: target,
                rtt,
            },
            ConnectOutcome::Failed { error } => PingProbeOutcome::Error {
                address: Some(target),
                error,
                protocol: PingProtocol::TcpSyn,
            },
            ConnectOutcome::TimedOut => PingProbeOutcome::Timeout {
                address: Some(target),
                protocol: PingProtocol::TcpSyn,
            },
            ConnectOutcome::Cancelled => PingProbeOutcome::Cancelled,
        },
{
    match outcome {
        ConnectOutcome::Connected { rtt } => PingProbeOutcome::FallbackSuccess {
            address: target,
            rtt,
        },
        ConnectOutcome::Failed { error } => PingProbeOutcome::Error {
            address: Some(target),
            error,
            protocol: PingProtocol::TcpSyn,
        },
        ConnectOutcome::TimedOut => PingProbeOutcome::Timeout {
            address: Some(target),
            protocol: PingProtocol::TcpSyn,
        },
        ConnectOutcome::Cancelled => PingProbeOutcome::Cancelled,
    }
}

/// The payload of an echo request: the numbers from 0 to 55.
pub fn build_payload() -> (r: Vec<u8>)
    ensures
        r@ == Seq::new(56, |i: int| i as u8),
{
    let mut r: Vec<u8> = Vec::new();
    let mut n: u8 = 0;
    while n < 56
        invariant
            n <= 56,
            r@ == Seq::new(n as nat, |i: int| i as u8),
        decreases 56 - n,
    {
        r.push(n);
        n = n + 1;
        assert(r@ =~= Seq::new(n as nat, |i: int| i as u8));
    }
    r
}

/// Numbers the echo requests of this agent, so that their answers can be told apart.
#[derive(Debug, Clone, Copy, PartialEq, Eq, Structural)]
pub struct SystemPingEngine {
    pub identifier: u16,
}

impl SystemPingEngine {
    pub fn new() -> (r: SystemPingEngine)
        ensures
            r.identifier == 0,
    {
        SystemPingEngine { identifier: 0 }
    }

    /// The identifier of the next echo request.
    pub fn next_identifier(&mut self) -> (r: u16)
        ensures
            r == old(self).identifier,
            final(self).identifier == following(old(self).identifier),
    {
        let identifier: u16 = self.identifier;
        self.identifier = identifier.wrapping_add(1);
        identifier
    }
}

/// Echo requests are sent to IPv4 addresses only.
pub fn can_echo(address: &SocketAddr) -> (r: bool)
    ensures
        r == (address.ip is V4),
{
    !address.is_ipv6()
}

/// Requests go to the addresses in turn and are numbered in order. A cancelled ping asks for
/// nothing more.
pub proof fn law_requests_take_turns(ping: PingView)
    requires
        ping.wf(),
        ping.phase is Ready,
    ensures
        ({
            let n = ping.attempts.len();
            let k = n as int % ping.addresses.len() as int;
            match ping.request(false) {
                Some(request) => {
                    &&& request.address == ping.addresses[k]
                    &&& request.sequence == n
                    &&& request.timeout == ping.timeout
                },
                None => false,
            }
        }),
        ping.asked(false) == (PingView { phase: PingPhase::Waiting, ..ping }),
        ping.request(true) is None,
        ping.asked(true) == (PingView { phase: PingPhase::Finished, cancelled: true, ..ping }),
{
}

/// Every outcome is recorded under its number, with its address and its protocol, behind those
/// that were recorded before.
pub proof fn law_outcome_is_recorded(ping: PingView, outcome: PingProbeOutcome)
    requires
        ping.wf(),
        ping.phase is Waiting,
    ensures
        ({
            let after = ping.observed(outcome);
            let o = after.attempts.last();
            &&& after.attempts.len() == ping.attempts.len() + 1
            &&& after.attempts.drop_last() == ping.attempts
            &&& o.attempt == ping.attempts.len()
            &&& o.outcome == outcome
            &&& match outcome {
                PingProbeOutcome::Success { address, .. } => o.address == Some(address)
                    && o.protocol is Icmp,
                PingProbeOutcome::FallbackSuccess { address, .. } => o.address == Some(address)
                    && o.protocol is TcpSyn,
                PingProbeOutcome::Timeout { address, protocol } => o.address == address
                    && o.protocol == protocol,
                PingProbeOutcome::DestinationUnreachable { address, protocol, .. } => o.address
                    == address && o.protocol == protocol,
                PingProbeOutcome::Filtered { address, protocol, .. } => o.address == address
                    && o.protocol == protocol,
                PingProbeOutcome::Error { address, protocol, .. } => o.address == address
                    && o.protocol == protocol,
                PingProbeOutcome::Cancelled => o.address is None && o.protocol is Icmp,
            }
            &&& after.phase == if ping.attempts.len() + 1 == ping.count {
                PingPhase::Finished
            } else {
                PingPhase::Ready
            }
            &&& after.cancelled == ping.cancelled
            &&& after.addresses == ping.addresses && after.count == ping.count && after.timeout
                == ping.timeout
        }),
{
    let after = ping.observed(outcome);
    assert(after.attempts.drop_last() =~= ping.attempts);
}

/// The times of the answers that came, in their order.
pub proof fn law_times_are_those_of_the_answers(attempts: Seq<PingObservation>)
    ensures
        rtts(attempts) == attempts.filter_map(
            |o: PingObservation|
                match o.outcome {
                    PingProbeOutcome::Success { rtt, .. } => Some(rtt),
                    PingProbeOutcome::FallbackSuccess { rtt, .. } => Some(rtt),
                    _ => None,
                },
        ),
    decreases attempts.len(),
{
    if attempts.len() > 0 {
        law_times_are_those_of_the_answers(attempts.drop_last());
    }
}

/// A reason is counted as often as it occurred.
pub proof fn law_reasons_are_counted(attempts: Seq<PingObservation>)
    ensures
        failures(attempts, PingFailureReason::Timeout) == attempts.filter(
            |o: PingObservation| o.outcome is Timeout,
        ).len(),
        failures(attempts, PingFailureReason::Unreachable) == attempts.filter(
            |o: PingObservation| o.outcome is DestinationUnreachable,
        ).len(),
        failures(attempts, PingFailureReason::Filtered) == attempts.filter(
            |o: PingObservation| o.outcome is Filtered,
        ).len(),
        failures(attempts, PingFailureReason::Error) == attempts.filter(
            |o: PingObservation| o.outcome is Error,
        ).len(),
        failures(attempts, PingFailureReason::Cancelled) == attempts.filter(
            |o: PingObservation| o.outcome is Cancelled,
        ).len(),
    decreases attempts.len(),
{
    reveal(Seq::filter);
    if attempts.len() > 0 {
        law_reasons_are_counted(attempts.drop_last());
    }
}

/// The summary lists every reason that occurred under its name with how often it did, and no
/// other.
pub proof fn law_summary_lists_every_reason(attempts: Seq<PingObservation>)
    requires
        attempts.len() <= u32::MAX,
    ensures
        ({
            let counts = reason_counts(attempts);
            let timeouts = attempts.filter(|o: PingObservation| o.outcome is Timeout).len();
            let unreachable = attempts.filter(
                |o: PingObservation| o.outcome is DestinationUnreachable,
            ).len();
            let filtered = attempts.filter(|o: PingObservation| o.outcome is Filtered).len();
            let errors = attempts.filter(|o: PingObservation| o.outcome is Error).len();
            let cancelled = attempts.filter(|o: PingObservation| o.outcome is Cancelled).len();
            &&& timeouts > 0 ==> counts.contains(("timeout"@, timeouts as u32))
            &&& unreachable > 0 ==> counts.contains(("unreachable"@, unreachable as u32))
            &&& filtered > 0 ==> counts.contains(("filtered"@, filtered as u32))
            &&& errors > 0 ==> counts.contains(("error"@, errors as u32))
            &&& cancelled > 0 ==> counts.contains(("cancelled"@, cancelled as u32))
            &&& counts.len() == (if timeouts > 0 {
                1int
            } else {
                0
            }) + (if unreachable > 0 {
                1int
            } else {
                0
            }) + (if filtered > 0 {
                1int
            } else {
                0
            }) + (if errors > 0 {
                1int
            } else {
                0
            }) + (if cancelled > 0 {
                1int
            } else {
                0
            })
        }),
{
    law_reasons_are_counted(attempts);
    let t = with_count(Seq::empty(), attempts, PingFailureReason::Timeout);
    let u = with_count(t, attempts, PingFailureReason::Unreachable);
    let f = with_count(u, attempts, PingFailureReason::Filtered);
    let e = with_count(f, attempts, PingFailureReason::Error);
    lemma_count_kept(Seq::empty(), attempts, PingFailureReason::Timeout);
    lemma_count_kept(t, attempts, PingFailureReason::Unreachable);
    lemma_count_kept(u, attempts, PingFailureReason::Filtered);
    lemma_count_kept(f, attempts, PingFailureReason::Error);
    lemma_count_kept(e, attempts, PingFailureReason::Cancelled);
}

proof fn lemma_count_kept(
    list: Seq<(Seq<char>, u32)>,
    attempts: Seq<PingObservation>,
    reason: PingFailureReason,
)
    ensures
        ({
            let n = failures(attempts, reason);
            let after = with_count(list, attempts, reason);
            &&& n > 0 ==> after.contains((reason_text(reason), n as u32))
            &&& forall|x: (Seq<char>, u32)| list.contains(x) ==> #[trigger] after.contains(x)
            &&& after.len() == list.len() + if n > 0 {
                1int
            } else {
                0
            }
        }),
{
    let n = failures(attempts, reason);
    let after = with_count(list, attempts, reason);
    if n > 0 {
        assert(after[list.len() as int] == (reason_text(reason), n as u32));
        assert forall|x: (Seq<char>, u32)| list.contains(x) implies #[trigger] after.contains(x) by {
            let k = choose|k: int| 0 <= k < list.len() && list[k] == x;
            assert(after[k] == x);
        }
    }
}

/// The summary tells how many requests were sent and answered, the share that was lost, the
/// shortest and the longest time and all times, and the protocol of the first answer, or of the
/// first request if there was none.
pub proof fn law_summary_tells_what_happened(
    attempts: Seq<PingObservation>,
    cancelled: bool,
    answers: Seq<u128>,
)
    requires
        attempts.len() <= u32::MAX,
        answers == attempts.filter_map(
            |o: PingObservation|
                match o.outcome {
                    PingProbeOutcome::Success { rtt, .. } => Some(rtt),
                    PingProbeOutcome::FallbackSuccess { rtt, .. } => Some(rtt),
                    _ => None,
                },
        ),
    ensures
        ({
            let f = summary_fields(attempts, cancelled);
            &&& answers.len() <= attempts.len()
            &&& f.contains(("success"@, FieldView::Bool(answers.len() > 0)))
            &&& f.contains(("sent"@, FieldView::Number(attempts.len() as u64)))
            &&& f.contains(("received"@, FieldView::Number(answers.len() as u64)))
            &&& f.contains(
                (
                    "loss_pct"@,
                    FieldView::Percent {
                        part: (attempts.len() - answers.len()) as u32,
                        whole: attempts.len() as u32,
                    },
                ),
            )
            &&& f.contains(("cancelled"@, FieldView::Bool(cancelled)))
            &&& answers.len() == 0 ==> f.contains(("min_rtt_ms"@, FieldView::Null)) && f.contains(
                ("max_rtt_ms"@, FieldView::Null),
            ) && f.contains(("avg_rtt_ms"@, FieldView::Null)) && f.contains(
                ("stddev_rtt_ms"@, FieldView::Null),
            )
            &&& answers.len() > 0 ==> exists|times: Seq<u128>|
                #![trigger times.to_multiset()]
                {
                    &&& times.to_multiset() == answers.to_multiset()
                    &&& times.len() > 0
                    &&& forall|i: int, j: int| 0 <= i <= j < times.len() ==> times[i] <= times[j]
                    &&& f.contains(("min_rtt_ms"@, FieldView::Millis(times[0])))
                    &&& f.contains(("max_rtt_ms"@, FieldView::Millis(times[times.len() - 1])))
                    &&& f.contains(("avg_rtt_ms"@, FieldView::MeanMillis(times)))
                    &&& f.contains(("stddev_rtt_ms"@, FieldView::DeviationMillis(times)))
                }
            &&& f.contains(("reasons"@, FieldView::Counts(reason_counts(attempts))))
        }),
{
    let f = summary_fields(attempts, cancelled);
    law_times_are_those_of_the_answers(attempts);
    law_summary_counts_every_request(attempts);
    let times = ascending(rtts(attempts));
    law_ascending_sorts(rtts(attempts));
    assert(f[0].0 == "success"@);
    assert(f[1].0 == "sent"@);
    assert(f[2].0 == "received"@);
    assert(f[3].0 == "loss_pct"@);
    assert(f[4].0 == "min_rtt_ms"@);
    assert(f[5].0 == "max_rtt_ms"@);
    assert(f[6].0 == "avg_rtt_ms"@);
    assert(f[7].0 == "stddev_rtt_ms"@);
    assert(f[9].0 == "reasons"@);
    assert(f[10].0 == "cancelled"@);
    if answers.len() > 0 {
        assert(times.to_multiset() == answers.to_multiset());
    }
}

/// The summary names the protocol of the first answer, or of the first request if nothing was
/// answered.
pub proof fn law_summary_names_the_protocol(
    attempts: Seq<PingObservation>,
    cancelled: bool,
    i: int,
)
    requires
        0 <= i < attempts.len(),
        ({
            ||| (attempts[i].outcome is Success || attempts[i].outcome is FallbackSuccess)
                && forall|k: int|
                0 <= k < i ==> !((#[trigger] attempts[k]).outcome is Success)
                    && !(attempts[k].outcome is FallbackSuccess)
            ||| i == 0 && forall|k: int|
                0 <= k < attempts.len() ==> !((#[trigger] attempts[k]).outcome is Success)
                    && !(attempts[k].outcome is FallbackSuccess)
        }),
    ensures
        summary_fields(attempts, cancelled).contains(
            (
                "protocol"@,
                FieldView::Text(
                    match attempts[i].protocol {
                        PingProtocol::Icmp => "icmp"@,
                        PingProtocol::TcpSyn => "tcp_syn"@,
                    },
                ),
            ),
        ),
        summary_fields(Seq::empty(), cancelled).contains(("protocol"@, FieldView::Null)),
{
    lemma_first_success_at(attempts, i);
    assert(summary_fields(attempts, cancelled)[8].0 == "protocol"@);
    assert(summary_fields(Seq::empty(), cancelled)[8].0 == "protocol"@);
}

proof fn lemma_first_success_at(attempts: Seq<PingObservation>, i: int)
    requires
        0 <= i < attempts.len(),
    ensures
        attempts[i].succeeded() && (forall|k: int| 0 <= k < i ==> !(#[trigger] attempts[k]).succeeded())
            ==> first_success(attempts) == i,
        (forall|k: int| 0 <= k < attempts.len() ==> !(#[trigger] attempts[k]).succeeded())
            ==> first_success(attempts) == attempts.len(),
    decreases attempts.len(),
{
    let rest = attempts.skip(1);
    assert(forall|k: int| 0 <= k < rest.len() ==> #[trigger] rest[k] == attempts[k + 1]);
    if attempts.len() > 1 {
        if i > 0 {
            assert(rest[i - 1] == attempts[i]);
            lemma_first_success_at(rest, i - 1);
        } else {
            lemma_first_success_at(rest, 0);
        }
        if forall|k: int| 0 <= k < attempts.len() ==> !(#[trigger] attempts[k]).succeeded() {
            assert forall|k: int| 0 <= k < rest.len() implies !(#[trigger] rest[k]).succeeded() by {
                assert(rest[k] == attempts[k + 1]);
            }
        }
        if i > 0 && (forall|k: int| 0 <= k < i ==> !(#[trigger] attempts[k]).succeeded()) {
            assert forall|k: int| 0 <= k < i - 1 implies !(#[trigger] rest[k]).succeeded() by {
                assert(rest[k] == attempts[k + 1]);
            }
        }
    } else {
        assert(rest =~= Seq::empty());
    }
}

/// What is reported of a request names its protocol.
pub proof fn law_report_names_the_protocol(o: PingObservation)
    ensures
        o.fields().contains(
            (
                "protocol"@,
                FieldView::Text(
                    match o.protocol {
                        PingProtocol::Icmp => "icmp"@,
                        PingProtocol::TcpSyn => "tcp_syn"@,
                    },
                ),
            ),
        ),
{
    assert(o.fields()[2].0 == "protocol"@);
}

/// What is reported of a request: its number, its address, whether it was answered,
/// and the time of the answer or the reason why there was none.
pub proof fn law_report_tells_each_request(o: PingObservation)
    ensures
        ({
            let f = o.fields();
            let answered = o.outcome is Success || o.outcome is FallbackSuccess;
            &&& f.contains(("attempt"@, FieldView::Number(o.attempt as u64)))
            &&& f.contains(("success"@, FieldView::Bool(answered)))
            &&& !(o.outcome is Cancelled) ==> f.contains(
                (
                    "address"@,
                    match o.address {
                        Some(a) => FieldView::Address(a),
                        None => FieldView::Null,
                    },
                ),
            )
            &&& match o.outcome {
                PingProbeOutcome::Success { rtt, bytes, ttl, .. } => f.len() == 7 && f.contains(
                    ("rtt_ms"@, FieldView::Millis(rtt)),
                ) && f.contains(("bytes"@, FieldView::Number(bytes as u64))) && f.contains(
                    (
                        "ttl"@,
                        match ttl {
                            Some(n) => FieldView::Number(n as u64),
                            None => FieldView::Null,
                        },
                    ),
                ),
                PingProbeOutcome::FallbackSuccess { rtt, .. } => f.len() == 5 && f.contains(
                    ("rtt_ms"@, FieldView::Millis(rtt)),
                ),
                PingProbeOutcome::Timeout { .. } => f.len() == 5 && f.contains(
                    ("reason"@, FieldView::Text("timeout"@)),
                ),
                PingProbeOutcome::DestinationUnreachable { code, message, .. } => f.len() == 7
                    && f.contains(("reason"@, FieldView::Text("unreachable"@))) && f.contains(
                    ("code"@, FieldView::Number(code as u64)),
                ) && f.contains(("message"@, FieldView::Text(message@))),
                PingProbeOutcome::Filtered { code, message, .. } => f.len() == 7 && f.contains(
                    ("reason"@, FieldView::Text("filtered"@)),
                ) && f.contains(("code"@, FieldView::Number(code as u64))) && f.contains(
                    ("message"@, FieldView::Text(message@)),
                ),
                PingProbeOutcome::Error { error, .. } => f.len() == 6 && f.contains(
                    ("reason"@, FieldView::Text("error"@)),
                ) && f.contains(("message"@, FieldView::Text(error@))),
                PingProbeOutcome::Cancelled => f.len() == 4 && f.contains(
                    ("reason"@, FieldView::Text("cancelled"@)),
                ),
            }
        }),
{
    let f = o.fields();
    assert(f[0].0 == "attempt"@);
    assert(f[1].0 == "success"@);
    match o.outcome {
        PingProbeOutcome::Success { .. } => {
            assert(f[3].0 == "address"@);
            assert(f[4].0 == "rtt_ms"@);
            assert(f[5].0 == "bytes"@);
            assert(f[6].0 == "ttl"@);
        },
        PingProbeOutcome::FallbackSuccess { .. } => {
            assert(f[3].0 == "address"@);
            assert(f[4].0 == "rtt_ms"@);
        },
        PingProbeOutcome::Timeout { .. } => {
            assert(f[3].0 == "address"@);
            assert(f[4].0 == "reason"@);
        },
        PingProbeOutcome::DestinationUnreachable { .. } => {
            assert(f[3].0 == "address"@);
            assert(f[4].0 == "reason"@);
            assert(f[5].0 == "code"@);
            assert(f[6].0 == "message"@);
        },
        PingProbeOutcome::Filtered { .. } => {
            assert(f[3].0 == "address"@);
            assert(f[4].0 == "reason"@);
            assert(f[5].0 == "code"@);
            assert(f[6].0 == "message"@);
        },
        PingProbeOutcome::Error { .. } => {
            assert(f[3].0 == "address"@);
            assert(f[4].0 == "reason"@);
            assert(f[5].0 == "message"@);
        },
        PingProbeOutcome::Cancelled => {
            assert(f[3].0 == "reason"@);
        },
    }
}

/// A ping sends as many requests as the task asks for, from one to twenty, and waits for each as
/// long as it asks for.
pub proof fn law_plan_follows_the_task(spec: PingSpec)
    ensures
        ({
            let plan = plan_of(spec);
            &&& 1 <= plan.count <= 20
            &&& spec.count is None ==> plan.count == 4
            &&& spec.count is Some && 1 <= spec.count->0 <= 20 ==> plan.count == spec.count->0
            &&& spec.count is Some && spec.count->0 > 20 ==> plan.count == 20
            &&& spec.timeout_ms is Some ==> plan.timeout == spec.timeout_ms->0 * 1_000_000
            &&& spec.timeout_ms is None ==> plan.timeout == 1_000_000_000
            &&& spec.interval_ms is Some ==> plan.interval == spec.interval_ms->0 * 1_000_000
            &&& plan.rate >= 1
            &&& spec.rate_limit_per_sec is None ==> plan.rate == 10
            &&& spec.rate_limit_per_sec is Some && spec.rate_limit_per_sec->0 > 0 ==> plan.rate
                == spec.rate_limit_per_sec->0
            &&& spec.interval_ms is None ==> plan.interval == interval_of(plan.rate as nat) as u128
        }),
{
}

/// A ping starts with no request sent, for the addresses and by the plan that it was given.
pub proof fn law_ping_starts_by_its_plan(addresses: Seq<SocketAddr>, plan: PingPlan)
    ensures
        ({
            let ping = PingView::start(addresses, plan);
            &&& ping.addresses == addresses
            &&& ping.count == plan.count
            &&& ping.timeout == plan.timeout
            &&& ping.attempts.len() == 0
            &&& !ping.cancelled
            &&& ping.phase is Ready
        }),
{
}

} // verus!
