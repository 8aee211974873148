use dns_agent::control_plane::{Lease, TaskKind, TaskSpec, TraceSpec};
use dns_agent::net::{IpAddr, Ipv4Addr, SocketAddr};
use dns_agent::observation::{Observation, ObservationValue};
use dns_agent::workers::raw::{echo_request, parse_response, EchoAnswer};
use dns_agent::workers::trace::{
    begin_trace, build_icmp_probe, build_tcp_probe, build_udp_probe, detect_loop, detect_nat,
    trace_report, trace_target, FlowSeed, ParisFlowId, RawCapability, TraceHop, TraceObservation,
    TraceProbeOutcome, TraceProtocol, TraceRateLimiter, TraceSession, TraceStart, TraceStatus,
};

fn address(last: u8) -> SocketAddr {
    SocketAddr::new(IpAddr::V4(Ipv4Addr::new(10, 0, 0, last)), 33434)
}

fn session(max_hops: Option<u8>, capability: RawCapability) -> TraceSession {
    let spec = TraceSpec { host: "127.0.0.1".to_string(), max_hops };
    TraceSession::new(42, spec, address(9), ParisFlowId(7), capability)
}

fn run(session: &mut TraceSession, outcomes: Vec<TraceProbeOutcome>) -> Vec<TraceProtocol> {
    let mut protocols = Vec::new();
    for (sequence, outcome) in outcomes.into_iter().enumerate() {
        let request = session.next_request(false).expect("another probe");
        assert_eq!(request.sequence as usize, sequence);
        assert_eq!(request.target, address(9));
        assert_eq!(request.timeout, 1_500_000_000);
        assert_eq!(request.paris_flow, ParisFlowId(7));
        protocols.push(request.protocol);
        session.observe(outcome);
    }
    protocols
}

fn hop(last: u8, rtt_ms: u128, reached: bool) -> TraceProbeOutcome {
    TraceProbeOutcome::Hop { address: Some(address(last)), rtt: Some(rtt_ms * 1_000_000), reached }
}

fn only_trace(observations: &[Observation]) -> &TraceObservation {
    assert_eq!(observations.len(), 1);
    assert_eq!(observations[0].name, "trace");
    match &observations[0].value {
        ObservationValue::Trace(trace) => trace,
        other => panic!("unexpected value {other:?}"),
    }
}

#[test]
fn paris_flow_increments() {
    let mut seed = FlowSeed::random();
    let first = ParisFlowId::next(&mut seed);
    let second = ParisFlowId::next(&mut seed);
    assert_ne!(first.0, second.0);
}

#[test]
fn paris_flows_start_over() {
    let mut seed = FlowSeed::starting_at(u16::MAX);
    assert_eq!(ParisFlowId::next(&mut seed), ParisFlowId(u16::MAX));
    assert_eq!(ParisFlowId::next(&mut seed), ParisFlowId(0));
}

#[test]
fn icmp_probe_has_identifier_and_sequence() {
    let flow = ParisFlowId(42);
    let packet = build_icmp_probe(flow, 7);
    let parsed = pnet_packet::icmp::echo_request::EchoRequestPacket::new(&packet).expect("packet");
    assert_eq!(parsed.get_identifier(), 42);
    assert_eq!(parsed.get_sequence_number(), 7);
    assert_eq!(packet, [8, 0, 0xf7, 0xce, 0, 42, 0, 7]);
}

#[test]
fn udp_probe_sets_ports() {
    let flow = ParisFlowId(100);
    let (packet, source) = build_udp_probe(flow);
    let parsed = pnet_packet::udp::UdpPacket::new(&packet).expect("packet");
    assert_eq!(parsed.get_source(), source);
    assert_eq!(parsed.get_destination(), 33434);
    assert_eq!(parsed.get_length(), 8);
    assert_eq!(source, 33534);
}

#[test]
fn tcp_probe_sets_syn_flag() {
    let flow = ParisFlowId(5);
    let (packet, source) = build_tcp_probe(flow);
    let parsed = pnet_packet::tcp::TcpPacket::new(&packet).expect("packet");
    assert_eq!(parsed.get_source(), source);
    assert_eq!(parsed.get_destination(), 80);
    assert!(parsed.get_flags() & pnet_packet::tcp::TcpFlags::SYN != 0);
    assert_eq!(parsed.get_window(), 64240);
    assert_eq!(build_tcp_probe(ParisFlowId(1999)).1, 34433);
}

#[test]
fn trace_worker_collects_observation() {
    let mut session = session(Some(4), RawCapability::Allowed);
    let outcomes = vec![hop(1, 20, false), TraceProbeOutcome::Timeout, hop(5, 35, true)];
    let protocols = run(&mut session, outcomes);
    assert_eq!(protocols, [TraceProtocol::Icmp, TraceProtocol::Icmp, TraceProtocol::Udp]);
    assert!(session.next_request(false).is_none());
    let report = trace_report(42, session.observation(5));
    let (completed, cancelled) = report.into_parts();
    assert!(cancelled.is_empty());
    assert_eq!(completed.len(), 1);
    assert_eq!(completed[0].lease_id, 42);
    let trace = only_trace(&completed[0].observations);
    assert_eq!(trace.host, "127.0.0.1");
    assert_eq!(trace.status, TraceStatus::Complete);
    assert_eq!(trace.total_duration, 5);
    assert_eq!(trace.hops.len(), 2);
    assert!(trace.hops[0].success);
    assert_eq!(trace.hops[0].rtt, Some(20_000_000));
    assert_eq!(trace.hops[1].ttl, 2);
    assert_eq!(trace.hops[1].rtt, Some(35_000_000));
    assert_eq!(trace.hops[1].protocol, TraceProtocol::Udp);
    assert!(trace.hops[1].reached_destination);
    assert!(!trace.nat_detected);
    assert!(!trace.loop_detected);
    assert!(!trace.permission_denied);
    assert_eq!(trace.protocols, protocols);
}

#[test]
fn trace_worker_marks_permission_denied() {
    let mut session = session(Some(1), RawCapability::Denied);
    let protocols = run(&mut session, vec![TraceProbeOutcome::Timeout; 3]);
    assert_eq!(protocols, [TraceProtocol::Tcp; 3]);
    assert!(session.next_request(false).is_none());
    let (completed, _) = trace_report(55, session.observation(0)).into_parts();
    let trace = only_trace(&completed[0].observations);
    assert_eq!(trace.status, TraceStatus::PermissionDenied);
    assert!(trace.permission_denied);
    assert_eq!(trace.hops.len(), 1);
    assert!(!trace.hops[0].success);
}

#[test]
fn trace_worker_respects_rate_limits() {
    let mut session = session(Some(1), RawCapability::Allowed);
    let timeout = TraceProbeOutcome::Timeout;
    run(&mut session, vec![timeout.clone(), timeout, hop(1, 10, true)]);
    assert!(session.next_request(false).is_none());
    let (completed, _) = trace_report(99, session.observation(0)).into_parts();
    assert_eq!(completed.len(), 1);
    assert_eq!(TraceRateLimiter::new(2).interval, 500_000_000);
    assert_eq!(TraceRateLimiter::new(2).permits, 2);
    assert_eq!(TraceRateLimiter::new(0), TraceRateLimiter::new(1));
    assert_eq!(TraceRateLimiter::new(10).interval, 100_000_000);
}

#[test]
fn errors_close_a_hop() {
    let mut session = session(Some(2), RawCapability::Unknown);
    let broken = TraceProbeOutcome::Error { error: "broken".to_string() };
    run(&mut session, vec![TraceProbeOutcome::Timeout, broken, hop(1, 20, false)]);
    assert!(session.next_request(false).is_none());
    let trace = session.observation(0);
    assert_eq!(trace.status, TraceStatus::Complete);
    assert_eq!(trace.hops.len(), 2);
    assert_eq!(trace.hops[0].error.as_deref(), Some("broken"));
    assert!(!trace.hops[0].success);
    assert!(trace.hops[1].success);
}

#[test]
fn cancelled_traces_start_no_other_hop() {
    let mut session = session(None, RawCapability::Allowed);
    assert!(session.next_request(false).is_some());
    session.observe(TraceProbeOutcome::Timeout);
    assert!(session.next_request(true).is_some(), "the hop is finished first");
    session.observe(hop(1, 20, false));
    assert!(session.next_request(true).is_none());
    session.observe(hop(2, 20, true));
    let (completed, cancelled) = trace_report(42, session.observation(0)).into_parts();
    assert!(completed.is_empty());
    let trace = only_trace(&cancelled[0].observations);
    assert_eq!(trace.status, TraceStatus::Cancelled);
    assert_eq!(trace.hops.len(), 1);
}

#[test]
fn traces_end_at_the_hop_limit() {
    let mut session = session(None, RawCapability::Unknown);
    let mut probes = 0;
    while session.next_request(false).is_some() {
        probes += 1;
        session.observe(TraceProbeOutcome::Timeout);
    }
    assert_eq!(probes, 90);
    let trace = session.observation(0);
    assert_eq!(trace.hops.len(), 30);
    assert_eq!(trace.hops[29].ttl, 30);
}

fn known_hop(ttl: u8, last: Option<u8>, success: bool) -> TraceHop {
    TraceHop {
        ttl,
        address: last.map(address),
        rtt: None,
        protocol: TraceProtocol::Udp,
        success,
        reached_destination: false,
        error: None,
    }
}

#[test]
fn repeated_addresses_are_noticed() {
    let apart = [known_hop(1, Some(1), true), known_hop(2, None, true), known_hop(3, Some(1), true)];
    assert!(detect_nat(&apart));
    assert!(!detect_loop(&apart));
    let adjacent = [known_hop(1, Some(1), true), known_hop(2, Some(1), true)];
    assert!(detect_nat(&adjacent));
    assert!(detect_loop(&adjacent));
    let failed = [known_hop(1, Some(1), true), known_hop(2, Some(1), false)];
    assert!(!detect_loop(&failed));
    assert!(!detect_nat(&[known_hop(1, None, true), known_hop(2, None, true)]));
    let mut flow = known_hop(2, Some(1), true);
    flow.address = flow.address.map(|a| SocketAddr { flowinfo: 3, ..a });
    assert!(detect_loop(&[known_hop(1, Some(1), true), flow]));
}

fn lease(spec: TaskSpec) -> Lease {
    Lease { lease_id: 42, task_id: 1, kind: TaskKind::Trace, lease_until_ms: 0, spec }
}

#[test]
fn trace_leases_are_started() {
    let spec = TraceSpec { host: "h".to_string(), max_hops: Some(0) };
    match begin_trace(lease(TaskSpec::Trace(spec.clone())), false) {
        TraceStart::Resolve { lease_id, spec } => {
            assert_eq!((lease_id, spec.host.as_str()), (42, "h"))
        }
        _ => panic!("lease not started"),
    }
    match begin_trace(lease(TaskSpec::Trace(spec)), true) {
        TraceStart::Report(report) => {
            let (completed, cancelled) = report.into_parts();
            assert!(completed.is_empty());
            assert_eq!(cancelled[0].lease_id, 42);
        }
        _ => panic!("lease started"),
    }
    let other = TaskSpec::Http { url: "u".to_string(), method: None };
    assert!(matches!(begin_trace(lease(other), false), TraceStart::Unexpected(_)));
}

#[test]
fn unresolved_hosts_are_reported() {
    assert_eq!(trace_target(1, "h", Ok(vec![address(3), address(4)])).unwrap(), address(3));
    for (result, text) in
        [(Ok(vec![]), "no addresses resolved"), (Err("lost".to_string()), "lost")]
    {
        let report = trace_target(1, "h", result).unwrap_err();
        let (completed, _) = report.into_parts();
        let observation = &completed[0].observations[0];
        assert_eq!(observation.name, "trace_resolution");
        assert!(format!("{:?}", observation.value).contains(text));
    }
}

fn ipv4(protocol: u8, header_words: u8, data: &[u8]) -> Vec<u8> {
    let mut packet = vec![0u8; header_words as usize * 4];
    packet[0] = 0x40 | header_words;
    let total = (packet.len() + data.len()) as u16;
    packet[2..4].copy_from_slice(&total.to_be_bytes());
    packet[8] = 52;
    packet[9] = protocol;
    packet.extend_from_slice(data);
    packet
}

#[test]
fn echo_requests_carry_their_payload() {
    let packet = echo_request(0x1234, 1, &[1, 2, 3]);
    assert_eq!(&packet[..2], &[8, 0]);
    assert_eq!(&packet[4..], &[0x12, 0x34, 0, 1, 1, 2, 3]);
    let sum = pnet_packet::util::checksum(&packet, 99);
    assert_eq!(sum, 0);
}

#[test]
fn echo_replies_are_recognised() {
    let reply = [0u8, 0, 0, 0, 0x12, 0x34, 0, 9, 7, 7];
    for words in [5, 6] {
        match parse_response(&ipv4(1, words, &reply), 0x1234, 9) {
            Some(EchoAnswer::Echo { bytes, ttl }) => assert_eq!((bytes, ttl), (10, 52)),
            other => panic!("unexpected answer {other:?}"),
        }
    }
    let mut padded = ipv4(1, 5, &reply);
    padded.extend_from_slice(&[0; 8]);
    assert!(matches!(
        parse_response(&padded, 0x1234, 9),
        Some(EchoAnswer::Echo { bytes: 10, .. })
    ));
    assert!(parse_response(&ipv4(1, 5, &reply), 0x1234, 8).is_none());
    assert!(parse_response(&ipv4(1, 5, &reply), 0x1235, 9).is_none());
    assert!(parse_response(&ipv4(17, 5, &reply), 0x1234, 9).is_none());
    assert!(parse_response(&reply, 0x1234, 9).is_none());
    assert!(parse_response(&ipv4(1, 5, &reply[..3]), 0x1234, 9).is_none());
    assert!(parse_response(&ipv4(1, 5, &reply[..7]), 0x1234, 9).is_none());
    assert!(parse_response(&ipv4(1, 5, &[8, 0, 0, 0, 0, 0, 0, 0]), 0, 0).is_none());
}

#[test]
fn lost_requests_are_recognised() {
    match parse_response(&ipv4(1, 5, &[3, 13, 0, 0, 0, 0, 0, 0]), 1, 1) {
        Some(EchoAnswer::Unreachable { code, message }) => {
            assert_eq!(code, 13);
            assert_eq!(message, "destination unreachable (code 13)");
        }
        other => panic!("unexpected answer {other:?}"),
    }
    match parse_response(&ipv4(1, 5, &[11, 0, 0, 0, 0, 0, 0, 0]), 1, 1) {
        Some(EchoAnswer::Filtered { code, message }) => {
            assert_eq!(code, 0);
            assert_eq!(message, "time exceeded (code 0)");
        }
        other => panic!("unexpected answer {other:?}"),
    }
    assert!(parse_response(&ipv4(1, 5, &[3, 13, 0, 0, 0, 0, 0]), 1, 1).is_none());
    assert!(parse_response(&ipv4(1, 5, &[11, 0, 0, 0]), 1, 1).is_none());
}
