use dns_agent::control_plane::{Lease, PingSpec, TaskKind, TaskSpec};
use dns_agent::net::{IpAddr, Ipv4Addr, Ipv6Addr, SocketAddr};
use dns_agent::observation::{Field, FieldValue, Observation, ObservationValue};
use dns_agent::workers::ping::{
    begin_ping, build_payload, can_echo, echo_outcome, ping_plan, ping_targets, probe_outcome,
    receive_step, syn_outcome, syn_target, ConnectOutcome, IcmpOutcome, PingFailureReason,
    PingObservation, PingOutcome, PingProbeOutcome, PingProtocol, PingSession, PingStart,
    ReceiveStep, SystemPingEngine,
};
use dns_agent::workers::raw::EchoAnswer;

const MS: u128 = 1_000_000;

fn local(port: u16) -> SocketAddr {
    SocketAddr::new(IpAddr::V4(Ipv4Addr::new(127, 0, 0, 1)), port)
}

fn spec() -> PingSpec {
    PingSpec {
        host: "127.0.0.1".to_string(),
        count: Some(3),
        interval_ms: Some(10),
        timeout_ms: Some(200),
        rate_limit_per_sec: Some(10),
    }
}

fn fields(observation: &Observation) -> &Vec<Field> {
    match &observation.value {
        ObservationValue::Fields(fields) => fields,
        other => panic!("unexpected value {other:?}"),
    }
}

fn text(observation: &Observation, key: &str) -> String {
    let found = fields(observation).iter().find(|f| f.key == key).expect("field present");
    format!("{:?}", found.value)
}

#[test]
fn ping_worker_produces_observations() {
    let plan = ping_plan(&spec());
    assert_eq!((plan.count, plan.timeout, plan.interval), (3, 200 * MS, 10 * MS));
    let mut session = PingSession::new(42, plan, vec![local(0)]);
    let outcomes = vec![
        PingProbeOutcome::Success { address: local(0), rtt: 8 * MS, bytes: 64, ttl: Some(52) },
        PingProbeOutcome::Timeout { address: Some(local(0)), protocol: PingProtocol::Icmp },
        PingProbeOutcome::FallbackSuccess { address: local(80), rtt: 30 * MS },
    ];
    for (sequence, outcome) in outcomes.into_iter().enumerate() {
        let request = session.next_request(false).expect("another request");
        assert_eq!(request.sequence as usize, sequence);
        assert_eq!((request.address, request.timeout), (local(0), 200 * MS));
        session.observe(outcome);
    }
    assert!(session.next_request(false).is_none());
    let (completed, cancelled) = session.into_report().into_parts();
    assert!(cancelled.is_empty());
    assert_eq!(completed.len(), 1);
    let observations = &completed[0].observations;
    assert_eq!(observations.len(), 4);
    for attempt in &observations[..3] {
        assert_eq!(attempt.name, "ping_attempt");
    }
    assert_eq!(text(&observations[0], "protocol"), "Text(\"icmp\")");
    assert_eq!(text(&observations[0], "success"), "Bool(true)");
    assert_eq!(text(&observations[0], "bytes"), "Number(64)");
    assert_eq!(text(&observations[0], "ttl"), "Number(52)");
    assert_eq!(text(&observations[0], "rtt_ms"), "Millis(8000000)");
    assert_eq!(text(&observations[1], "reason"), "Text(\"timeout\")");
    assert_eq!(text(&observations[2], "protocol"), "Text(\"tcp_syn\")");
    assert_eq!(text(&observations[2], "success"), "Bool(true)");
    let summary = observations.last().expect("summary observation");
    assert_eq!(summary.name, "ping_summary");
    assert_eq!(text(summary, "sent"), "Number(3)");
    assert_eq!(text(summary, "received"), "Number(2)");
    assert_eq!(text(summary, "reasons"), "Counts([(\"timeout\", 1)])");
    assert_eq!(text(summary, "loss_pct"), "Percent { part: 1, whole: 3 }");
    assert_eq!(text(summary, "min_rtt_ms"), "Millis(8000000)");
    assert_eq!(text(summary, "max_rtt_ms"), "Millis(30000000)");
    assert_eq!(text(summary, "avg_rtt_ms"), "MeanMillis([8000000, 30000000])");
    assert_eq!(text(summary, "stddev_rtt_ms"), "DeviationMillis([8000000, 30000000])");
    assert_eq!(text(summary, "protocol"), "Text(\"icmp\")");
    assert_eq!(text(summary, "success"), "Bool(true)");
    assert_eq!(text(summary, "cancelled"), "Bool(false)");
}

#[test]
fn plans_fill_in_defaults() {
    let bare = PingSpec {
        host: String::new(),
        count: None,
        interval_ms: None,
        timeout_ms: None,
        rate_limit_per_sec: None,
    };
    let plan = ping_plan(&bare);
    assert_eq!((plan.count, plan.timeout, plan.rate), (4, 1_000 * MS, 10));
    assert_eq!(plan.interval, 100 * MS);
    let plan = ping_plan(&PingSpec { count: Some(0), rate_limit_per_sec: Some(0), ..bare.clone() });
    assert_eq!((plan.count, plan.rate, plan.interval), (1, 1, 1_000 * MS));
    let plan = ping_plan(&PingSpec { count: Some(99), rate_limit_per_sec: Some(3), ..bare });
    assert_eq!((plan.count, plan.interval), (20, 333_333_333));
}

#[test]
fn intervals_follow_the_rate() {
    for rate in (1..3000u64).chain([5120, 16_000_000, 80_000_000, 400_000_000, 2_000_000_000]) {
        let expected = std::time::Duration::from_secs_f64(1.0 / rate as f64).as_nanos();
        assert_eq!(dns_agent::rate::rate_interval(rate), expected, "rate {rate}");
    }
    assert_eq!(dns_agent::rate::rate_interval(3_000_000_000), 1_000);
    assert_eq!(dns_agent::rate::rate_interval(u64::MAX), 1_000);
}

#[test]
fn cancelled_pings_are_reported_as_such() {
    let mut session = PingSession::new(7, ping_plan(&spec()), vec![local(1), local(2)]);
    assert_eq!(session.next_request(false).unwrap().address, local(1));
    session.observe(PingProbeOutcome::Cancelled);
    assert!(session.next_request(true).is_none());
    assert!(session.next_request(false).is_none());
    let (completed, cancelled) = session.into_report().into_parts();
    assert!(completed.is_empty());
    let observations = &cancelled[0].observations;
    assert_eq!(observations.len(), 2);
    assert_eq!(text(&observations[0], "reason"), "Text(\"cancelled\")");
    assert!(fields(&observations[0]).iter().all(|f| f.key != "address"));
    assert_eq!(text(&observations[1], "cancelled"), "Bool(true)");
    assert_eq!(text(&observations[1], "min_rtt_ms"), "Null");
}

#[test]
fn addresses_take_turns() {
    let mut session = PingSession::new(7, ping_plan(&spec()), vec![local(1), local(2)]);
    for port in [1, 2, 1] {
        assert_eq!(session.next_request(false).unwrap().address, local(port));
        session.observe(PingProbeOutcome::Timeout {
            address: None,
            protocol: PingProtocol::TcpSyn,
        });
    }
}

#[test]
fn every_outcome_is_described() {
    let observed = |outcome| PingObservation::from_outcome(5, outcome);
    let unreachable = observed(PingProbeOutcome::DestinationUnreachable {
        address: Some(local(0)),
        code: 3,
        message: "no route".to_string(),
        protocol: PingProtocol::Icmp,
    });
    assert_eq!(unreachable.reason(), Some(PingFailureReason::Unreachable));
    assert!(!unreachable.is_success());
    let o = unreachable.into_observation();
    assert_eq!(text(&o, "attempt"), "Number(5)");
    assert_eq!(text(&o, "code"), "Number(3)");
    assert_eq!(text(&o, "message"), "Text(\"no route\")");
    let filtered = observed(PingProbeOutcome::Filtered {
        address: None,
        code: 1,
        message: "gone".to_string(),
        protocol: PingProtocol::Icmp,
    });
    assert_eq!(filtered.reason(), Some(PingFailureReason::Filtered));
    let o = filtered.into_observation();
    assert_eq!(text(&o, "reason"), "Text(\"filtered\")");
    assert_eq!(text(&o, "address"), "Null");
    let error = observed(PingProbeOutcome::Error {
        address: Some(local(80)),
        error: "refused".to_string(),
        protocol: PingProtocol::TcpSyn,
    });
    assert_eq!(error.reason(), Some(PingFailureReason::Error));
    assert_eq!(text(&error.into_observation(), "message"), "Text(\"refused\")");
    let success = observed(PingProbeOutcome::FallbackSuccess { address: local(80), rtt: 9 });
    assert_eq!(success.elapsed(), Some(9));
    assert_eq!(success.reason(), None);
    assert_eq!(success.address, Some(local(80)));
    assert_eq!(success.protocol, PingProtocol::TcpSyn);
    assert_eq!(observed(PingProbeOutcome::Cancelled).reason(), Some(PingFailureReason::Cancelled));
}

#[test]
fn empty_pings_have_a_summary() {
    let mut outcome = PingOutcome::new(3);
    assert!(!outcome.is_cancelled());
    outcome.mark_cancelled();
    assert!(outcome.is_cancelled());
    let summary = outcome.summary_observation();
    assert_eq!(text(&summary, "sent"), "Number(0)");
    assert_eq!(text(&summary, "protocol"), "Null");
    assert_eq!(text(&summary, "loss_pct"), "Percent { part: 0, whole: 0 }");
    assert_eq!(text(&summary, "reasons"), "Counts([])");
}

#[test]
fn echo_answers_become_outcomes() {
    let outcome = echo_outcome(EchoAnswer::Echo { bytes: 64, ttl: 5 }, 77);
    match probe_outcome(local(0), outcome) {
        PingProbeOutcome::Success { address, rtt, bytes, ttl } => {
            assert_eq!((address, rtt, bytes, ttl), (local(0), 77, 64, Some(5)));
        }
        other => panic!("unexpected outcome {other:?}"),
    }
    let lost = echo_outcome(EchoAnswer::Unreachable { code: 1, message: "m".to_string() }, 77);
    assert!(matches!(
        probe_outcome(local(0), lost),
        PingProbeOutcome::DestinationUnreachable { code: 1, .. }
    ));
    let lost = echo_outcome(EchoAnswer::Filtered { code: 2, message: "m".to_string() }, 77);
    assert!(matches!(
        probe_outcome(local(0), lost),
        PingProbeOutcome::Filtered { code: 2, protocol: PingProtocol::Icmp, .. }
    ));
    assert!(matches!(
        probe_outcome(local(0), IcmpOutcome::Timeout),
        PingProbeOutcome::Timeout { protocol: PingProtocol::Icmp, .. }
    ));
    assert!(matches!(
        probe_outcome(local(0), IcmpOutcome::Cancelled),
        PingProbeOutcome::Cancelled
    ));
}

#[test]
fn connections_stand_in_for_echo_requests() {
    let v6 = SocketAddr {
        ip: IpAddr::V6(Ipv6Addr::localhost()),
        port: 9,
        flowinfo: 1,
        scope_id: 2,
    };
    assert!(!can_echo(&v6));
    assert!(can_echo(&local(0)));
    let target = syn_target(v6);
    assert_eq!(target, SocketAddr::new(IpAddr::V6(Ipv6Addr::localhost()), 80));
    assert!(matches!(
        syn_outcome(target, ConnectOutcome::Connected { rtt: 3 }),
        PingProbeOutcome::FallbackSuccess { rtt: 3, .. }
    ));
    assert!(matches!(
        syn_outcome(target, ConnectOutcome::Failed { error: "x".to_string() }),
        PingProbeOutcome::Error { protocol: PingProtocol::TcpSyn, .. }
    ));
    assert!(matches!(
        syn_outcome(target, ConnectOutcome::TimedOut),
        PingProbeOutcome::Timeout { protocol: PingProtocol::TcpSyn, .. }
    ));
    assert!(matches!(
        syn_outcome(target, ConnectOutcome::Cancelled),
        PingProbeOutcome::Cancelled
    ));
}

#[test]
fn waiting_ends_at_the_deadline() {
    assert_eq!(receive_step(5, 9, false), ReceiveStep::Wait(4));
    assert_eq!(receive_step(9, 9, false), ReceiveStep::TimedOut);
    assert_eq!(receive_step(9, 9, true), ReceiveStep::Cancelled);
}

#[test]
fn echo_requests_are_numbered() {
    let mut engine = SystemPingEngine::new();
    assert_eq!(engine.next_identifier(), 0);
    assert_eq!(engine.next_identifier(), 1);
    engine.identifier = u16::MAX;
    assert_eq!(engine.next_identifier(), u16::MAX);
    assert_eq!(engine.next_identifier(), 0);
    let payload = build_payload();
    assert_eq!(payload.len(), 56);
    assert_eq!(payload[55], 55);
}

#[test]
fn ping_leases_are_started() {
    let lease = |spec| Lease { lease_id: 3, task_id: 1, kind: TaskKind::Ping, lease_until_ms: 0, spec };
    assert!(matches!(
        begin_ping(lease(TaskSpec::Ping(spec())), false),
        PingStart::Resolve { lease_id: 3, .. }
    ));
    assert!(matches!(begin_ping(lease(TaskSpec::Ping(spec())), true), PingStart::Report(_)));
    let other = TaskSpec::Dns { query: "q".to_string(), server: None };
    assert!(matches!(begin_ping(lease(other), false), PingStart::Unexpected(_)));
    assert_eq!(ping_targets(3, "h", Ok(vec![local(1)])).unwrap(), vec![local(1)]);
    let report = ping_targets(3, "h", Ok(vec![])).unwrap_err();
    let (completed, _) = report.into_parts();
    assert_eq!(completed[0].observations[0].name, "ping_resolution");
    assert_eq!(text(&completed[0].observations[0], "error"), "Text(\"no addresses resolved\")");
    let report = ping_targets(3, "h", Err("lost".to_string())).unwrap_err();
    let (completed, _) = report.into_parts();
    assert_eq!(text(&completed[0].observations[0], "error"), "Text(\"lost\")");
    match &fields(&completed[0].observations[0])[0].value {
        FieldValue::Text(host) => assert_eq!(host, "h"),
        other => panic!("unexpected value {other:?}"),
    }
}
