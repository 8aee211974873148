//! Traceroute: which probes are sent, and what is made of their outcomes.

use vstd::prelude::*;
use vstd::string::*;

use crate::control_plane::{Lease, TaskSpec, TraceSpec};
use crate::net::SocketAddr;
use crate::observation::{
    field_views, record, text_field, Field, FieldView, Observation, ObservationValue,
};
use crate::rate::{interval_of, rate_interval};
use crate::workers::raw::{
    echo_wire, flow_echo, tcp_header, tcp_wire, udp_header, udp_wire, TCP_SYN,
};
use crate::workers::report::{single_report, WorkerReport, WorkerReportView};

verus! {

/// Number of hops that are probed if a task does not say.
pub const DEFAULT_MAX_HOPS: u8 = 30;

/// Time that a probe has to be answered, in nanoseconds.
pub const TRACE_TIMEOUT_NANOS: u128 = 1_500_000_000;

/// Probes per second.
pub const TRACE_RATE_PER_SECOND: u64 = 10;

/// Number of probes per hop.
pub const PROBES_PER_HOP: u8 = 3;

/// First port of the range that probes are sent from, and the port that UDP probes go to.
pub const PROBE_PORT: u16 = 33434;

/// Number of ports that probes are sent from.
pub const PROBE_PORTS: u16 = 1000;

/// The window that TCP probes announce.
pub const PROBE_WINDOW: u16 = 64240;

/// How a trace ended.
#[derive(Debug, Clone, Copy, PartialEq, Eq, Structural)]
pub enum TraceStatus {
    Complete,
    Cancelled,
    PermissionDenied,
}

/// The protocol of a probe.
#[derive(Debug, Clone, Copy, PartialEq, Eq, Structural)]
pub enum TraceProtocol {
    Tcp,
    Udp,
    Icmp,
}

/// Identifies the flow that the probes of one trace belong to, so that they take one path.
#[derive(Debug, Clone, Copy, PartialEq, Eq, Structural)]
pub struct ParisFlowId(pub u16);

/// Where the next flow identifier comes from.
#[derive(Debug, Clone, Copy, PartialEq, Eq, Structural)]
pub struct FlowSeed {
    pub next: u16,
}

/// Calls `rand::thread_rng` and draws a number with `Rng::gen`. Nothing is known of it.
#[verifier::external_body]
fn random_number() -> u16 {
    rand::Rng::gen::<u16>(&mut rand::thread_rng())
}

impl FlowSeed {
    /// Starts at a random number.
    pub fn random() -> FlowSeed {
        FlowSeed { next: random_number() }
    }

    /// Starts at `next`.
    pub fn starting_at(next: u16) -> (r: FlowSeed)
        ensures
            r.next == next,
    {
        FlowSeed { next }
    }
}

/// `n` plus one, starting over after the largest number.
pub open spec fn following(n: u16) -> u16 {
    if n == u16::MAX {
        0
    } else {
        (n + 1) as u16
    }
}

impl ParisFlowId {
    /// The next identifier.
    pub fn next(seed: &mut FlowSeed) -> (r: ParisFlowId)
        ensures
            r == ParisFlowId(old(seed).next),
            final(seed).next == following(old(seed).next),
    {
        let id: u16 = seed.next;
        seed.next = id.wrapping_add(1);
        ParisFlowId(id)
    }
}

/// Identifiers that are taken one after the other differ.
pub proof fn law_flows_differ(seed: u16)
    ensures
        ParisFlowId(seed) != ParisFlowId(following(seed)),
{
}

/// What is known of one hop.
#[derive(Debug, Clone)]
pub struct TraceHop {
    pub ttl: u8,
    pub address: Option<SocketAddr>,
    /// Round-trip time in nanoseconds.
    pub rtt: Option<u128>,
    pub protocol: TraceProtocol,
    pub success: bool,
    pub reached_destination: bool,
    pub error: Option<String>,
}

impl TraceHop {
    /// A hop of which nothing is known yet.
    pub open spec fn blank(ttl: u8) -> TraceHop {
        TraceHop {
            ttl,
            address: None,
            rtt: None,
            protocol: TraceProtocol::Udp,
            success: false,
            reached_destination: false,
            error: None,
        }
    }

    fn new(ttl: u8) -> (r: TraceHop)
        ensures
            r == TraceHop::blank(ttl),
    {
        TraceHop {
            ttl,
            address: None,
            rtt: None,
            protocol: TraceProtocol::Udp,
            success: false,
            reached_destination: false,
            error: None,
        }
    }
}

/// The result of a trace.
#[derive(Debug, Clone)]
pub struct TraceObservation {
    pub host: String,
    pub status: TraceStatus,
    pub paris_flow: ParisFlowId,
    /// Duration in nanoseconds.
    pub total_duration: u128,
    pub hops: Vec<TraceHop>,
    pub nat_detected: bool,
    pub loop_detected: bool,
    pub permission_denied: bool,
    pub protocols: Vec<TraceProtocol>,
}

/// A probe that is to be sent.
#[derive(Debug, Clone, Copy, PartialEq, Eq, Structural)]
pub struct TraceProbeRequest {
    pub target: SocketAddr,
    pub ttl: u8,
    pub protocol: TraceProtocol,
    pub sequence: u16,
    /// Time to answer in nanoseconds.
    pub timeout: u128,
    pub paris_flow: ParisFlowId,
}

/// What came of a probe.
#[derive(Debug, Clone)]
pub enum TraceProbeOutcome {
    Hop { address: Option<SocketAddr>, rtt: Option<u128>, reached: bool },
    Timeout,
    Error { error: String },
}

/// Whether raw packets can be sent.
#[derive(Debug, Clone, Copy, PartialEq, Eq, Structural)]
pub enum RawCapability {
    Allowed,
    Denied,
    /// It could not be found out.
    Unknown,
}

/// The protocols that probes use in turn.
pub open spec fn protocols_for(capability: RawCapability) -> Seq<TraceProtocol> {
    match capability {
        RawCapability::Allowed => seq![TraceProtocol::Icmp, TraceProtocol::Udp, TraceProtocol::Tcp],
        RawCapability::Denied | RawCapability::Unknown => seq![TraceProtocol::Tcp],
    }
}

fn trace_protocols(capability: RawCapability) -> (r: Vec<TraceProtocol>)
    ensures
        r@ == protocols_for(capability),
{
    let mut r: Vec<TraceProtocol> = Vec::new();
    match capability {
        RawCapability::Allowed => {
            r.push(TraceProtocol::Icmp);
            r.push(TraceProtocol::Udp);
            r.push(TraceProtocol::Tcp);
        },
        RawCapability::Denied | RawCapability::Unknown => {
            r.push(TraceProtocol::Tcp);
        },
    }
    assert(r@ =~= protocols_for(capability));
    r
}

/// Both addresses read the same when they are written out.
pub open spec fn same_display(a: SocketAddr, b: SocketAddr) -> bool {
    a.ip == b.ip && a.port == b.port && a.scope_id == b.scope_id
}

/// Both hops have an address, and it is the same.
pub open spec fn same_place(a: TraceHop, b: TraceHop) -> bool {
    a.address is Some && b.address is Some && same_display(a.address->0, b.address->0)
}

fn is_same_place(a: &TraceHop, b: &TraceHop) -> (r: bool)
    ensures
        r == same_place(*a, *b),
{
    match (a.address, b.address) {
        (Some(x), Some(y)) => x.ip == y.ip && x.port == y.port && x.scope_id == y.scope_id,
        _ => false,
    }
}

/// Some address occurs at two hops.
pub open spec fn repeats(hops: Seq<TraceHop>) -> bool {
    exists|i: int, j: int| 0 <= i < j < hops.len() && #[trigger] same_place(hops[i], hops[j])
}

/// Two hops that follow each other were answered from the same address.
pub open spec fn loops(hops: Seq<TraceHop>) -> bool {
    exists|i: int|
        0 <= i < hops.len() - 1 && #[trigger] same_place(hops[i], hops[i + 1]) && hops[i].success
            && hops[i + 1].success
}

/// Whether some address occurs at two hops.
pub fn detect_nat(hops: &[TraceHop]) -> (r: bool)
    ensures
        r == repeats(hops@),
{
    let mut j: usize = 0;
    while j < hops.len()
        invariant
            j <= hops.len(),
            forall|a: int, b: int| 0 <= a < b < j ==> !#[trigger] same_place(hops@[a], hops@[b]),
        decreases hops.len() - j,
    {
        let mut i: usize = 0;
        while i < j
            invariant
                i <= j < hops.len(),
                forall|a: int| 0 <= a < i ==> !#[trigger] same_place(hops@[a], hops@[j as int]),
            decreases j - i,
        {
            if is_same_place(&hops[i], &hops[j]) {
                assert(same_place(hops@[i as int], hops@[j as int]));
                return true;
            }
            i = i + 1;
        }
        j = j + 1;
    }
    false
}

/// Whether two hops that follow each other were answered from the same address.
pub fn detect_loop(hops: &[TraceHop]) -> (r: bool)
    ensures
        r == loops(hops@),
{
    let mut i: usize = 1;
    while i < hops.len()
        invariant
            1 <= i,
            forall|a: int|
                0 <= a < i - 1 && a < hops.len() - 1 ==> !(#[trigger] same_place(
                    hops@[a],
                    hops@[a + 1],
                ) && hops@[a].success && hops@[a + 1].success),
        decreases hops.len() - i,
    {
        if is_same_place(&hops[i - 1], &hops[i]) && hops[i - 1].success && hops[i].success {
            assert(same_place(hops@[i - 1], hops@[(i - 1) + 1]));
            return true;
        }
        i = i + 1;
    }
    false
}

/// A loop shows an address at two hops.
pub proof fn law_loop_implies_repeat(hops: Seq<TraceHop>)
    requires
        loops(hops),
    ensures
        repeats(hops),
{
    let i = choose|i: int|
        0 <= i < hops.len() - 1 && #[trigger] same_place(hops[i], hops[i + 1]) && hops[i].success
            && hops[i + 1].success;
    assert(same_place(hops[i], hops[i + 1]));
}

/// What a trace waits for.
#[derive(Debug, Clone, Copy, PartialEq, Eq, Structural)]
pub enum TracePhase {
    /// The next probe may be sent.
    Ready,
    /// A probe with this protocol is under way.
    Probing(TraceProtocol),
    Finished,
}

/// The contents of a [`TraceSession`].
pub struct TraceView {
    pub target: SocketAddr,
    pub paris_flow: ParisFlowId,
    pub protocols: Seq<TraceProtocol>,
    pub max_hops: u8,
    /// The hop that is probed, and how many probes it got.
    pub ttl: u8,
    pub attempt: u8,
    pub hop: TraceHop,
    pub sequence: u16,
    pub hops: Seq<TraceHop>,
    pub used: Seq<TraceProtocol>,
    pub cancelled: bool,
    pub phase: TracePhase,
}

impl TraceView {
    pub open spec fn start(
        target: SocketAddr,
        paris_flow: ParisFlowId,
        protocols: Seq<TraceProtocol>,
        max_hops: u8,
    ) -> TraceView {
        TraceView {
            target,
            paris_flow,
            protocols,
            max_hops,
            ttl: 1,
            attempt: 0,
            hop: TraceHop::blank(1),
            sequence: 0,
            hops: Seq::empty(),
            used: Seq::empty(),
            cancelled: false,
            phase: TracePhase::Ready,
        }
    }

    /// Every hop before the one that is probed is recorded in its place, and every probe has
    /// a protocol.
    pub open spec fn wf(self) -> bool {
        &&& self.protocols.len() > 0
        &&& 1 <= self.ttl <= self.max_hops
        &&& self.attempt < PROBES_PER_HOP
        &&& self.hop.ttl == self.ttl
        &&& self.hops.len() <= self.ttl
        &&& !(self.phase is Finished) ==> self.hops.len() == self.ttl - 1
        &&& forall|i: int| 0 <= i < self.hops.len() ==> (#[trigger] self.hops[i]).ttl == i + 1
        &&& self.used.len() <= PROBES_PER_HOP * self.ttl
        &&& !(self.phase is Finished) ==> self.used.len() <= PROBES_PER_HOP * (self.ttl - 1)
            + self.attempt + (if self.phase is Probing {
            1int
        } else {
            0
        })
    }

    /// The protocol of the next probe: the protocols take turns at every hop.
    pub open spec fn protocol(self) -> TraceProtocol {
        self.protocols[self.attempt as int % self.protocols.len() as int]
    }

    /// The next probe, if one is due. A cancelled trace starts no other hop.
    pub open spec fn request(self, cancelled: bool) -> Option<TraceProbeRequest> {
        if self.phase != TracePhase::Ready || (self.attempt == 0 && cancelled) {
            None
        } else {
            Some(
                TraceProbeRequest {
                    target: self.target,
                    ttl: self.ttl,
                    protocol: self.protocol(),
                    sequence: self.sequence,
                    timeout: TRACE_TIMEOUT_NANOS,
                    paris_flow: self.paris_flow,
                },
            )
        }
    }

    /// The trace after the next probe was asked for.
    pub open spec fn asked(self, cancelled: bool) -> TraceView {
        if self.phase != TracePhase::Ready {
            self
        } else if self.attempt == 0 && cancelled {
            TraceView { cancelled: true, phase: TracePhase::Finished, ..self }
        } else {
            TraceView {
                sequence: following(self.sequence),
                used: self.used.push(self.protocol()),
                phase: TracePhase::Probing(self.protocol()),
                ..self
            }
        }
    }

    /// The trace after the hop is closed with `hop`: the next hop follows, unless the
    /// destination is reached or this was the last hop.
    pub open spec fn closed(self, hop: TraceHop, reached: bool) -> TraceView {
        if reached || self.ttl >= self.max_hops {
            TraceView {
                hop,
                hops: self.hops.push(hop),
                phase: TracePhase::Finished,
                ..self
            }
        } else {
            let next = (self.ttl + 1) as u8;
            TraceView {
                ttl: next,
                attempt: 0,
                hop: TraceHop::blank(next),
                hops: self.hops.push(hop),
                phase: TracePhase::Ready,
                ..self
            }
        }
    }

    /// The trace after the outcome of the probe that was under way. An answer or an error
    /// closes the hop; timeouts close it once all its probes are used.
    pub open spec fn observed(self, outcome: TraceProbeOutcome) -> TraceView {
        match self.phase {
            TracePhase::Probing(protocol) => match outcome {
                TraceProbeOutcome::Hop { address, rtt, reached } => self.closed(
                    TraceHop {
                        address,
                        rtt,
                        protocol,
                        success: true,
                        reached_destination: reached,
                        ..self.hop
                    },
                    reached,
                ),
                TraceProbeOutcome::Timeout => {
                    let hop = TraceHop { protocol, success: false, ..self.hop };
                    if self.attempt + 1 >= PROBES_PER_HOP {
                        self.closed(hop, false)
                    } else {
                        TraceView {
                            attempt: (self.attempt + 1) as u8,
                            hop,
                            phase: TracePhase::Ready,
                            ..self
                        }
                    }
                },
                TraceProbeOutcome::Error { error } => self.closed(
                    TraceHop { protocol, success: false, error: Some(error), ..self.hop },
                    false,
                ),
            },
            _ => self,
        }
    }
}

/// A trace under way.
pub struct TraceSession {
    lease_id: u64,
    host: String,
    target: SocketAddr,
    paris_flow: ParisFlowId,
    permission_denied: bool,
    protocols: Vec<TraceProtocol>,
    max_hops: u8,
    ttl: u8,
    attempt: u8,
    hop: TraceHop,
    sequence: u16,
    hops: Vec<TraceHop>,
    used: Vec<TraceProtocol>,
    cancelled: bool,
    phase: TracePhase,
}

impl View for TraceSession {
    type V = TraceView;

    closed spec fn view(&self) -> TraceView {
        TraceView {
            target: self.target,
            paris_flow: self.paris_flow,
            protocols: self.protocols@,
            max_hops: self.max_hops,
            ttl: self.ttl,
            attempt: self.attempt,
            hop: self.hop,
            sequence: self.sequence,
            hops: self.hops@,
            used: self.used@,
            cancelled: self.cancelled,
            phase: self.phase,
        }
    }
}

/// The number of hops that a task asks for: at least one.
pub open spec fn hop_limit(spec: TraceSpec) -> u8 {
    match spec.max_hops {
        None => DEFAULT_MAX_HOPS,
        Some(0) => 1,
        Some(n) => n,
    }
}

impl TraceSession {
    pub closed spec fn lease(&self) -> u64 {
        self.lease_id
    }

    pub closed spec fn host_text(&self) -> Seq<char> {
        self.host@
    }

    pub closed spec fn denied(&self) -> bool {
        self.permission_denied
    }

    pub fn new(
        lease_id: u64,
        spec: TraceSpec,
        target: SocketAddr,
        paris_flow: ParisFlowId,
        capability: RawCapability,
    ) -> (r: TraceSession)
        ensures
            r@ == TraceView::start(target, paris_flow, protocols_for(capability), hop_limit(spec)),
            r@.wf(),
            r.lease() == lease_id,
            r.host_text() == spec.host@,
            r.denied() == (capability == RawCapability::Denied),
    {
        let max_hops: u8 = match spec.max_hops {
            None => DEFAULT_MAX_HOPS,
            Some(n) => if n == 0 {
                1
            } else {
                n
            },
        };
        let r: TraceSession = TraceSession {
            lease_id,
            host: spec.host,
            target,
            paris_flow,
            permission_denied: capability == RawCapability::Denied,
            protocols: trace_protocols(capability),
            max_hops,
            ttl: 1,
            attempt: 0,
            hop: TraceHop::new(1),
            sequence: 0,
            hops: Vec::new(),
            used: Vec::new(),
            cancelled: false,
            phase: TracePhase::Ready,
        };
        assert(r@.hops =~= Seq::empty());
        assert(r@.used =~= Seq::empty());
        r
    }

    /// The next probe to send, if one is due.
    pub fn next_request(&mut self, cancelled: bool) -> (r: Option<TraceProbeRequest>)
        requires
            old(self)@.wf(),
        ensures
            r == old(self)@.request(cancelled),
            final(self)@ == old(self)@.asked(cancelled),
            final(self)@.wf(),
            final(self).lease() == old(self).lease(),
            final(self).host_text() == old(self).host_text(),
            final(self).denied() == old(self).denied(),
    {
        if self.phase != TracePhase::Ready {
            return None;
        }
        if self.attempt == 0 && cancelled {
            self.cancelled = true;
            self.phase = TracePhase::Finished;
            return None;
        }
        let turn: usize = self.attempt as usize % self.protocols.len();
        let protocol: TraceProtocol = self.protocols[turn];
        let request: TraceProbeRequest = TraceProbeRequest {
            target: self.target,
            ttl: self.ttl,
            protocol,
            sequence: self.sequence,
            timeout: TRACE_TIMEOUT_NANOS,
            paris_flow: self.paris_flow,
        };
        self.sequence = self.sequence.wrapping_add(1);
        self.used.push(protocol);
        self.phase = TracePhase::Probing(protocol);
        Some(request)
    }

    fn close(&mut self, hop: TraceHop, reached: bool)
        requires
            old(self)@.wf(),
            old(self)@.phase is Probing,
            hop.ttl == old(self)@.ttl,
        ensures
            final(self)@ == old(self)@.closed(hop, reached),
            final(self)@.wf(),
            final(self).lease() == old(self).lease(),
            final(self).host_text() == old(self).host_text(),
            final(self).denied() == old(self).denied(),
    {
        let ghost before = self@;
        if reached || self.ttl >= self.max_hops {
            self.hops.push(hop.clone_hop());
            self.hop = hop;
            self.phase = TracePhase::Finished;
        } else {
            self.hops.push(hop);
            self.ttl = self.ttl + 1;
            self.attempt = 0;
            self.hop = TraceHop::new(self.ttl);
            self.phase = TracePhase::Ready;
        }
        assert(self@.hops =~= before.hops.push(hop));
    }

    /// Takes the outcome of the probe that was under way.
    pub fn observe(&mut self, outcome: TraceProbeOutcome)
        requires
            old(self)@.wf(),
        ensures
            final(self)@ == old(self)@.observed(outcome),
            final(self)@.wf(),
            final(self).lease() == old(self).lease(),
            final(self).host_text() == old(self).host_text(),
            final(self).denied() == old(self).denied(),
    {
        let protocol: TraceProtocol = match self.phase {
            TracePhase::Probing(protocol) => protocol,
            _ => {
                return ;
            },
        };
        let mut hop: TraceHop = self.hop.clone_hop();
        hop.protocol = protocol;
        match outcome {
            TraceProbeOutcome::Hop { address, rtt, reached } => {
                hop.address = address;
                hop.rtt = rtt;
                hop.success = true;
                hop.reached_destination = reached;
                self.close(hop, reached);
            },
            TraceProbeOutcome::Timeout => {
                hop.success = false;
                if self.attempt + 1 >= PROBES_PER_HOP {
                    self.close(hop, false);
                } else {
                    self.hop = hop;
                    self.attempt = self.attempt + 1;
                    self.phase = TracePhase::Ready;
                }
            },
            TraceProbeOutcome::Error { error } => {
                hop.success = false;
                hop.error = Some(error);
                self.close(hop, false);
            },
        }
    }

    /// The result of the trace, which took `total_duration` nanoseconds.
    pub fn observation(self, total_duration: u128) -> (r: TraceObservation)
        ensures
            r.host@ == self.host_text(),
            r.status == (if self@.cancelled {
                TraceStatus::Cancelled
            } else if self.denied() {
                TraceStatus::PermissionDenied
            } else {
                TraceStatus::Complete
            }),
            r.paris_flow == self@.paris_flow,
            r.total_duration == total_duration,
            r.hops@ == self@.hops,
            r.nat_detected == repeats(self@.hops),
            r.loop_detected == loops(self@.hops),
            r.permission_denied == self.denied(),
            r.protocols@ == self@.used,
    {
        let nat_detected: bool = detect_nat(self.hops.as_slice());
        let loop_detected: bool = detect_loop(self.hops.as_slice());
        let status: TraceStatus = if self.cancelled {
            TraceStatus::Cancelled
        } else if self.permission_denied {
            TraceStatus::PermissionDenied
        } else {
            TraceStatus::Complete
        };
        TraceObservation {
            host: self.host,
            status,
            paris_flow: self.paris_flow,
            total_duration,
            hops: self.hops,
            nat_detected,
            loop_detected,
            permission_denied: self.permission_denied,
            protocols: self.used,
        }
    }
}

impl TraceHop {
    fn clone_hop(&self) -> (r: TraceHop)
        ensures
            r == *self,
    {
        TraceHop {
            ttl: self.ttl,
            address: self.address,
            rtt: self.rtt,
            protocol: self.protocol,
            success: self.success,
            reached_destination: self.reached_destination,
            error: match &self.error {
                Some(e) => Some(e.clone()),
                None => None,
            },
        }
    }
}

/// A trace sends at most three probes per hop.
pub proof fn law_probe_budget(trace: TraceView)
    requires
        trace.wf(),
    ensures
        trace.used.len() <= PROBES_PER_HOP * trace.max_hops,
        trace.hops.len() <= trace.max_hops,
{
}

/// Every answer is recorded as it came: the hop that was probed, with the address, the time and
/// the protocol of the probe, whether or not it is the destination. The hops before it stay.
/// The trace ends at the destination and at the last hop, and goes on with the next hop
/// otherwise.
pub proof fn law_answer_is_recorded(
    trace: TraceView,
    protocol: TraceProtocol,
    address: Option<SocketAddr>,
    rtt: Option<u128>,
    reached: bool,
)
    requires
        trace.wf(),
        trace.phase == TracePhase::Probing(protocol),
    ensures
        ({
            let after = trace.observed(TraceProbeOutcome::Hop { address, rtt, reached });
            let hop = after.hops.last();
            &&& after.hops.len() == trace.hops.len() + 1
            &&& after.hops.drop_last() == trace.hops
            &&& hop.ttl == trace.ttl
            &&& hop.address == address
            &&& hop.rtt == rtt
            &&& hop.protocol == protocol
            &&& hop.success
            &&& hop.reached_destination == reached
            &&& hop.error == trace.hop.error
            &&& (after.phase is Finished) == (reached || trace.ttl == trace.max_hops)
            &&& !(after.phase is Finished) ==> after.phase is Ready && after.ttl == trace.ttl + 1
                && after.attempt == 0
            &&& after.used == trace.used
            &&& after.cancelled == trace.cancelled
        }),
{
    let after = trace.observed(TraceProbeOutcome::Hop { address, rtt, reached });
    assert(after.hops.drop_last() =~= trace.hops);
}

/// An error closes the hop that was probed, which is recorded as failed with the error and the
/// protocol of the probe. The trace goes on with the next hop, if there is one.
pub proof fn law_error_is_recorded(trace: TraceView, protocol: TraceProtocol, error: String)
    requires
        trace.wf(),
        trace.phase == TracePhase::Probing(protocol),
    ensures
        ({
            let after = trace.observed(TraceProbeOutcome::Error { error });
            let hop = after.hops.last();
            &&& after.hops.len() == trace.hops.len() + 1
            &&& after.hops.drop_last() == trace.hops
            &&& hop.ttl == trace.ttl
            &&& hop.address == trace.hop.address
            &&& hop.rtt == trace.hop.rtt
            &&& hop.protocol == protocol
            &&& !hop.success
            &&& hop.reached_destination == trace.hop.reached_destination
            &&& hop.error == Some(error)
            &&& (after.phase is Finished) == (trace.ttl == trace.max_hops)
            &&& !(after.phase is Finished) ==> after.phase is Ready && after.ttl == trace.ttl + 1
                && after.attempt == 0
            &&& after.used == trace.used
            &&& after.cancelled == trace.cancelled
        }),
{
    let after = trace.observed(TraceProbeOutcome::Error { error });
    assert(after.hops.drop_last() =~= trace.hops);
}

/// A hop gets three probes before it counts as silent: the first two timeouts only lead to
/// another probe of the same hop, and the third one records the hop as failed.
pub proof fn law_silent_hop_gets_three_probes(trace: TraceView, protocol: TraceProtocol)
    requires
        trace.wf(),
        trace.phase == TracePhase::Probing(protocol),
    ensures
        ({
            let after = trace.observed(TraceProbeOutcome::Timeout);
            &&& after.used == trace.used
            &&& after.cancelled == trace.cancelled
            &&& if trace.attempt < 2 {
                &&& after.hops == trace.hops
                &&& after.ttl == trace.ttl
                &&& after.attempt == trace.attempt + 1
                &&& after.phase is Ready
                &&& after.hop.protocol == protocol
                &&& after.hop.address == trace.hop.address
                &&& after.hop.rtt == trace.hop.rtt
                &&& after.hop.error == trace.hop.error
                &&& !after.hop.success
            } else {
                &&& after.hops.len() == trace.hops.len() + 1
                &&& after.hops.drop_last() == trace.hops
                &&& after.hops.last().ttl == trace.ttl
                &&& after.hops.last().protocol == protocol
                &&& after.hops.last().address == trace.hop.address
                &&& after.hops.last().rtt == trace.hop.rtt
                &&& after.hops.last().error == trace.hop.error
                &&& !after.hops.last().success
                &&& (after.phase is Finished) == (trace.ttl == trace.max_hops)
                &&& !(after.phase is Finished) ==> after.phase is Ready && after.ttl == trace.ttl
                    + 1 && after.attempt == 0
            }
        }),
{
    let after = trace.observed(TraceProbeOutcome::Timeout);
    if trace.attempt >= 2 {
        assert(after.hops.drop_last() =~= trace.hops);
    }
}

/// While a hop is probed, nothing is known of it: it has no address, no time and no error. This
/// holds at the start, and requests and outcomes keep it.
pub proof fn law_open_hop_is_unknown(
    trace: TraceView,
    cancelled: bool,
    outcome: TraceProbeOutcome,
    target: SocketAddr,
    flow: ParisFlowId,
    protocols: Seq<TraceProtocol>,
    max_hops: u8,
)
    ensures
        ({
            let open = |t: TraceView|
                !(t.phase is Finished) ==> t.hop.address is None && t.hop.rtt is None
                    && t.hop.error is None && !t.hop.success && !t.hop.reached_destination;
            &&& open(TraceView::start(target, flow, protocols, max_hops))
            &&& open(trace) ==> open(trace.asked(cancelled)) && open(trace.observed(outcome))
        }),
{
}

/// What is asked for is a probe of the hop at hand, with the protocol whose turn it is, the
/// flow and the target of the trace and a number of its own. The trace then waits for it.
pub proof fn law_probe_is_for_the_hop_at_hand(trace: TraceView, cancelled: bool)
    requires
        trace.wf(),
        trace.phase is Ready,
        !cancelled || trace.attempt > 0,
    ensures
        ({
            let after = trace.asked(cancelled);
            match trace.request(cancelled) {
                Some(request) => {
                    &&& request.target == trace.target
                    &&& request.ttl == trace.ttl
                    &&& request.paris_flow == trace.paris_flow
                    &&& request.sequence == trace.sequence
                    &&& request.timeout == 1_500_000_000
                    &&& request.protocol == trace.protocols[trace.attempt as int
                        % trace.protocols.len() as int]
                    &&& after.phase == TracePhase::Probing(request.protocol)
                    &&& after.used == trace.used.push(request.protocol)
                    &&& after.sequence as int == (trace.sequence + 1) % 65536
                    &&& after.ttl == trace.ttl && after.attempt == trace.attempt
                    &&& after.hops == trace.hops && after.hop == trace.hop
                    &&& after.cancelled == trace.cancelled
                    &&& after.target == trace.target && after.paris_flow == trace.paris_flow
                    &&& after.protocols == trace.protocols && after.max_hops == trace.max_hops
                },
                None => false,
            }
        }),
{
}

/// A trace starts at the first hop with nothing recorded. With raw sockets it takes ICMP, UDP
/// and TCP in turn, and without them TCP alone.
pub proof fn law_trace_starts_at_the_first_hop(
    target: SocketAddr,
    flow: ParisFlowId,
    capability: RawCapability,
    spec: TraceSpec,
)
    ensures
        ({
            let t = TraceView::start(target, flow, protocols_for(capability), hop_limit(spec));
            &&& t.ttl == 1 && t.attempt == 0 && t.sequence == 0
            &&& t.hops.len() == 0 && t.used.len() == 0
            &&& !t.cancelled && t.phase is Ready
            &&& t.target == target && t.paris_flow == flow
            &&& capability == RawCapability::Allowed ==> t.protocols.len() == 3 && t.protocols[0]
                is Icmp && t.protocols[1] is Udp && t.protocols[2] is Tcp
            &&& capability != RawCapability::Allowed ==> t.protocols.len() == 1 && t.protocols[0]
                is Tcp
            &&& spec.max_hops is None ==> t.max_hops == 30
            &&& spec.max_hops is Some ==> t.max_hops == if spec.max_hops->0 == 0 {
                1
            } else {
                spec.max_hops->0
            }
        }),
{
}

/// A trace ends where the destination answers.
pub proof fn law_destination_ends_trace(trace: TraceView, address: Option<SocketAddr>, rtt: Option<u128>)
    requires
        trace.phase is Probing,
    ensures
        ({
            let after = trace.observed(TraceProbeOutcome::Hop { address, rtt, reached: true });
            &&& after.phase is Finished
            &&& after.hops.len() == trace.hops.len() + 1
            &&& after.hops.last().reached_destination
            &&& after.hops.last().success
            &&& after.hops.last().address == address
            &&& after.request(false) is None
        }),
{
}

/// Every outcome brings a trace forward: to its end, to another probe of the hop, or to the
/// next hop.
pub proof fn law_trace_makes_progress(trace: TraceView, outcome: TraceProbeOutcome)
    requires
        trace.wf(),
        trace.phase is Probing,
    ensures
        ({
            let after = trace.observed(outcome);
            after.phase is Finished || PROBES_PER_HOP * trace.ttl + trace.attempt < PROBES_PER_HOP
                * after.ttl + after.attempt
        }),
{
}

/// A cancelled trace finishes the hop that it probes and starts no other one.
pub proof fn law_cancelled_trace_stops(trace: TraceView)
    requires
        trace.phase is Ready,
        trace.attempt == 0,
    ensures
        trace.request(true) is None,
        trace.asked(true).phase is Finished,
        trace.asked(true).cancelled,
        trace.asked(true).hops == trace.hops,
{
}

/// Reports the result of a trace: the lease is cancelled if the trace was.
pub fn trace_report(lease_id: u64, observation: TraceObservation) -> (r: WorkerReport)
    ensures
        ({
            let cancelled = observation.status == TraceStatus::Cancelled;
            &&& r@.is_single(lease_id, cancelled)
            &&& r@.observations(cancelled).len() == 1
            &&& r@.observations(cancelled)[0].name@ == "trace"@
            &&& r@.observations(cancelled)[0].value == ObservationValue::Trace(observation)
            &&& r@.observations(cancelled)[0].unit is None
        }),
{
    let cancelled: bool = observation.status == TraceStatus::Cancelled;
    let mut observations: Vec<Observation> = Vec::new();
    observations.push(
        Observation {
            name: "trace".to_string(),
            value: ObservationValue::Trace(observation),
            unit: None,
        },
    );
    single_report(lease_id, cancelled, observations)
}

/// What a worker does with a trace lease.
pub enum TraceStart {
    /// The lease is over.
    Report(WorkerReport),
    /// The host is to be resolved.
    Resolve { lease_id: u64, spec: TraceSpec },
    /// The lease holds another kind of task.
    Unexpected(TaskSpec),
}

/// Starts on a lease. A lease that was cancelled is reported at once.
pub fn begin_trace(lease: Lease, cancelled: bool) -> (r: TraceStart)
    ensures
        if cancelled {
            r is Report && r->Report_0@ == WorkerReportView::only_cancelled(lease.lease_id)
        } else {
            match lease.spec {
                TaskSpec::Trace(spec) => r == (TraceStart::Resolve {
                    lease_id: lease.lease_id,
                    spec,
                }),
                other => r == TraceStart::Unexpected(other),
            }
        },
{
    if cancelled {
        return TraceStart::Report(WorkerReport::cancelled(lease.lease_id));
    }
    match lease.spec {
        TaskSpec::Trace(spec) => TraceStart::Resolve { lease_id: lease.lease_id, spec },
        other => TraceStart::Unexpected(other),
    }
}

/// The address that a trace goes to: the first one. Without any, the lease is completed with
/// the reason.
pub fn trace_target(
    lease_id: u64,
    host: &str,
    addresses: Result<Vec<SocketAddr>, String>,
) -> (r: Result<SocketAddr, WorkerReport>)
    ensures
        if has_address(addresses) {
            r == Ok::<SocketAddr, WorkerReport>(addresses->Ok_0@[0])
        } else {
            &&& r is Err
            &&& r->Err_0@.is_single(lease_id, false)
            &&& r->Err_0@.observations(false).len() == 1
            &&& r->Err_0@.observations(false)[0].is_record(
                "trace_resolution"@,
                resolution_fields(host@, addresses),
            )
        },
{
    let error: String = match addresses {
        Ok(found) => {
            if found.len() > 0 {
                return Ok(found[0]);
            }
            "no addresses resolved".to_string()
        },
        Err(error) => error,
    };
    assert(resolution_fields(host@, addresses) =~= seq![
        ("host"@, FieldView::Text(host@)),
        ("error"@, FieldView::Text(error@)),
    ]);
    Err(failed_resolution("trace_resolution", lease_id, host, error))
}

/// A host has an address.
pub open spec fn has_address(addresses: Result<Vec<SocketAddr>, String>) -> bool {
    addresses is Ok && addresses->Ok_0@.len() > 0
}

/// The values that are reported when a host has no address.
pub open spec fn resolution_fields(
    host: Seq<char>,
    addresses: Result<Vec<SocketAddr>, String>,
) -> Seq<(Seq<char>, FieldView)> {
    seq![
        ("host"@, FieldView::Text(host)),
        (
            "error"@,
            FieldView::Text(
                match addresses {
                    Ok(_) => "no addresses resolved"@,
                    Err(error) => error@,
                },
            ),
        ),
    ]
}

/// Completes a lease whose host has no address.
pub(crate) fn failed_resolution(name: &str, lease_id: u64, host: &str, error: String) -> (r:
    WorkerReport)
    ensures
        r@.is_single(lease_id, false),
        r@.observations(false).len() == 1,
        r@.observations(false)[0].is_record(
            name@,
            seq![("host"@, FieldView::Text(host@)), ("error"@, FieldView::Text(error@))],
        ),
{
    let mut fields: Vec<Field> = Vec::new();
    fields.push(text_field("host", host));
    fields.push(text_field("error", error.as_str()));
    assert(field_views(fields@) =~= seq![
        ("host"@, FieldView::Text(host@)),
        ("error"@, FieldView::Text(error@)),
    ]);
    let mut observations: Vec<Observation> = Vec::new();
    observations.push(record(name, fields));
    single_report(lease_id, false, observations)
}

/// The limits on the rate of probes: how many may be under way, and the time in nanoseconds
/// after which one makes room for the next.
#[derive(Debug, Clone, Copy, PartialEq, Eq, Structural)]
pub struct TraceRateLimiter {
    pub permits: u64,
    pub interval: u128,
}

impl TraceRateLimiter {
    pub fn new(rate_per_second: u64) -> (r: TraceRateLimiter)
        ensures
            r.permits == (if rate_per_second == 0 {
                1
            } else {
                rate_per_second
            }),
            r.interval == interval_of(rate_per_second as nat),
    {
        TraceRateLimiter {
            permits: if rate_per_second == 0 {
                1
            } else {
                rate_per_second
            },
            interval: rate_interval(rate_per_second),
        }
    }
}

/// The port that the probes of a flow are sent from.
pub open spec fn source_port(flow: ParisFlowId) -> u16 {
    (PROBE_PORT + flow.0 % 1000) as u16
}

/// An echo request of a flow.
pub fn build_icmp_probe(flow: ParisFlowId, sequence: u16) -> (r: Vec<u8>)
    ensures
        r@ == echo_wire(flow.0, sequence, Seq::empty()),
{
    flow_echo(flow.0, sequence)
}

/// A UDP probe of a flow, and the port that it is sent from.
pub fn build_udp_probe(flow: ParisFlowId) -> (r: (Vec<u8>, u16))
    ensures
        r.0@ == udp_wire(source_port(flow), PROBE_PORT),
        r.1 == source_port(flow),
{
    let source: u16 = PROBE_PORT + flow.0 % PROBE_PORTS;
    (udp_header(source, PROBE_PORT), source)
}

/// A TCP probe of a flow, and the port that it is sent from.
pub fn build_tcp_probe(flow: ParisFlowId) -> (r: (Vec<u8>, u16))
    ensures
        r.0@ == tcp_wire(source_port(flow), 80, TCP_SYN, PROBE_WINDOW),
        r.1 == source_port(flow),
{
    let source: u16 = PROBE_PORT + flow.0 % PROBE_PORTS;
    (tcp_header(source, 80, TCP_SYN, PROBE_WINDOW), source)
}

/// Two hops at the same address are a repetition, and a repetition is two hops at the same address.
/// Where both are neighbours that answered, the path loops.
pub proof fn law_repeated_addresses_are_found(hops: Seq<TraceHop>, i: int, j: int)
    requires
        0 <= i < j < hops.len(),
        hops[i].address is Some && hops[i].address == hops[j].address,
    ensures
        repeats(hops),
        j == i + 1 && hops[i].success && hops[j].success ==> loops(hops),
{
    assert(same_place(hops[i], hops[j]));
}

/// A path on which no two hops are at the same address has no repetition and no loop.
pub proof fn law_distinct_addresses_do_not_repeat(hops: Seq<TraceHop>)
    requires
        forall|i: int, j: int|
            #![trigger hops[i], hops[j]]
            0 <= i < j < hops.len() && hops[i].address is Some && hops[j].address is Some
                ==> hops[i].address->0.ip != hops[j].address->0.ip || hops[i].address->0.port
                != hops[j].address->0.port || hops[i].address->0.scope_id
                != hops[j].address->0.scope_id,
    ensures
        !repeats(hops),
        !loops(hops),
{
    if repeats(hops) {
        let (i, j) = choose|i: int, j: int|
            0 <= i < j < hops.len() && #[trigger] same_place(hops[i], hops[j]);
        assert(same_place(hops[i], hops[j]));
    }
    if loops(hops) {
        let i = choose|i: int|
            0 <= i < hops.len() - 1 && #[trigger] same_place(hops[i], hops[i + 1])
                && hops[i].success && hops[i + 1].success;
        assert(same_place(hops[i], hops[i + 1]));
    }
}

/// The probes of one flow leave from one port, within a thousand ports.
pub proof fn law_flow_keeps_its_port(a: ParisFlowId, b: ParisFlowId)
    ensures
        33434 <= source_port(a) < 34434,
        source_port(a) == source_port(b) <==> a.0 % 1000 == b.0 % 1000,
{
}

} // verus!
