use dns_agent::double::Double;
use dns_agent::control_plane::{
    check_status, AgentBootstrap, AgentOperation, AgentRuntime, BackoffPolicy, ClaimResponse,
    ControlPlaneError, Exchange, ExtendOutcome, HeartbeatResponse, HttpControlPlaneTransport,
    Lease, LeaseReport, RegisterRequest, RegisterResponse, ReportResponse, TaskKind, TaskSpec,
    TransportError,
};
use dns_agent::kinds::KindMap;

const MS: u128 = 1_000_000;

fn registered(runtime: &mut AgentRuntime) {
    let response = RegisterResponse {
        agent_id: 1,
        lease_duration_ms: 60_000,
        heartbeat_timeout_ms: 45_000,
        auth_token: "secret".to_string(),
    };
    let policy = BackoffPolicy::default();
    match runtime.settle_register(Ok(response), &policy, 1_000) {
        Exchange::Done(Ok(answer)) => assert_eq!(answer.agent_id, 1),
        _ => panic!("registration failed"),
    }
}

fn lease(id: u64) -> Lease {
    Lease {
        lease_id: id,
        task_id: 100 + id,
        kind: TaskKind::Dns,
        lease_until_ms: 10,
        spec: TaskSpec::Dns { query: "example.com".to_string(), server: None },
    }
}

#[test]
fn backoff_policy_scales_exponentially() {
    let policy = BackoffPolicy::new(100 * MS, 2_000 * MS, Double::whole(2));
    assert_eq!(policy.delay_for(0), 100 * MS);
    assert_eq!(policy.delay_for(1), 200 * MS);
    assert_eq!(policy.delay_for(2), 400 * MS);
    assert_eq!(policy.delay_for(5), 2_000 * MS);
}

#[test]
fn backoff_is_bounded() {
    let policy = BackoffPolicy::default();
    assert_eq!(policy.delay_for(5), 3_200 * MS);
    assert_eq!(policy.delay_for(6), 5_000 * MS);
    assert_eq!(policy.delay_for(60), 5_000 * MS);
    assert!(policy.is_valid());
    let broken = Double { mantissa: 3, exponent: 0 };
    assert!(!BackoffPolicy::new(7, 100, broken).is_valid());
    assert_eq!(BackoffPolicy::new(7, 100, Double::whole(1)).delay_for(1000), 7);
    assert_eq!(BackoffPolicy::new(7, 100, Double::zero()).delay_for(1), 0);
    assert_eq!(BackoffPolicy::new(7, 100, Double::zero()).delay_for(0), 7);
}

#[test]
fn powers_are_numbers_with_a_sign() {
    let policy = BackoffPolicy::default();
    assert_eq!(policy.delay_for(u32::MAX), 50 * MS);
    assert_eq!(policy.delay_for(u32::MAX - 2), 12_500_000);
}

#[test]
fn backoff_rounds_as_doubles_do() {
    let factors = [(3, 2, 1.5), (5, 4, 1.25), (1, 2, 0.5), (3, 1, 3.0), (7, 8, 0.875)];
    for (num, den, factor) in factors {
        for base in [1u64, 7, 999, 100_000_000, 1_234_567_891, 86_400_000_000_007] {
            let policy = BackoffPolicy::new(base.into(), u128::MAX, Double::ratio(num, den));
            for attempts in 0..12u32 {
                let duration = std::time::Duration::from_nanos(base);
                let expected = duration.mul_f64(f64::powi(factor, attempts as i32));
                assert_eq!(policy.delay_for(attempts), expected.as_nanos(), "{base} {factor}");
            }
        }
    }
}

#[test]
fn client_handles_lease_lifecycle() {
    let policy = BackoffPolicy::default();
    let mut runtime = AgentRuntime::new();
    assert!(matches!(runtime.heartbeat_request(), Err(ControlPlaneError::NotRegistered)));
    registered(&mut runtime);

    let mut capacities = KindMap::new();
    capacities.insert(TaskKind::Dns, 2);
    let request = runtime.claim_request(&capacities).unwrap();
    assert_eq!(request.agent_id, 1);
    assert_eq!(request.capacities.get(TaskKind::Dns), Some(&2));
    let batch = ClaimResponse { leases: vec![lease(1), lease(2)] };
    match runtime.settle_claim(Ok(batch), &policy, 5_000) {
        Exchange::Done(Ok(batch)) => assert_eq!(batch.leases.len(), 2),
        _ => panic!("claim failed"),
    }
    let snapshot = runtime.snapshot();
    assert_eq!(snapshot.leases.len(), 2);
    assert_eq!(snapshot.leases[&1], 5_000 + 10 * MS);
    assert_eq!(snapshot.auth_token.as_deref(), Some("secret"));
    assert_eq!(snapshot.heartbeat_deadline, Some(1_000 + 45_000 * MS));

    let request = runtime.extend_request(vec![1, 2], 50 * MS).unwrap();
    assert_eq!(request.extend_by_ms, 50);
    let outcomes = vec![
        ExtendOutcome { lease_id: 1, new_deadline_ms: 50 },
        ExtendOutcome { lease_id: 2, new_deadline_ms: 50 },
        ExtendOutcome { lease_id: 3, new_deadline_ms: 50 },
    ];
    match runtime.settle_extend(Ok(outcomes), &policy, 6_000) {
        Exchange::Done(Ok(outcomes)) => assert_eq!(outcomes.len(), 3),
        _ => panic!("extension failed"),
    }
    let snapshot = runtime.snapshot();
    assert_eq!(snapshot.leases.len(), 2);
    assert_eq!(snapshot.leases[&2], 6_000 + 50 * MS);

    let done = vec![LeaseReport { lease_id: 1, observations: Vec::new() }];
    let gone = vec![LeaseReport { lease_id: 2, observations: Vec::new() }];
    let request = runtime.report_request(done, gone).unwrap();
    let answer = Ok(ReportResponse { acknowledged: 2 });
    match runtime.settle_report(&request, answer, &policy) {
        Exchange::Done(Ok(report)) => assert_eq!(report.acknowledged, 2),
        _ => panic!("report failed"),
    }
    assert!(runtime.snapshot().leases.is_empty());

    let beat = HeartbeatResponse { agent_id: 1, next_deadline_ms: 7 };
    match runtime.settle_heartbeat(Ok(beat), &policy, 9_000) {
        Exchange::Done(Ok(beat)) => assert_eq!(beat.agent_id, 1),
        _ => panic!("heartbeat failed"),
    }
    assert_eq!(runtime.snapshot().heartbeat_deadline, Some(9_000 + 7 * MS));
}

#[test]
fn registration_without_number_is_refused() {
    let mut runtime = AgentRuntime::new();
    let response = RegisterResponse {
        agent_id: 0,
        lease_duration_ms: 1,
        heartbeat_timeout_ms: 1,
        auth_token: String::new(),
    };
    match runtime.settle_register(Ok(response), &BackoffPolicy::default(), 0) {
        Exchange::Done(Err(error)) => {
            assert_eq!(error.message(), "control plane rejected registration response")
        }
        _ => panic!("registration accepted"),
    }
    assert_eq!(runtime.snapshot().agent_id, None);
    assert_eq!(runtime.agent_id().unwrap_err().message(), "agent is not registered");
}

#[test]
fn heartbeat_of_another_agent_is_refused() {
    let mut runtime = AgentRuntime::new();
    registered(&mut runtime);
    let beat = HeartbeatResponse { agent_id: 2, next_deadline_ms: 7 };
    match runtime.settle_heartbeat(Ok(beat), &BackoffPolicy::default(), 9_000) {
        Exchange::Done(Err(ControlPlaneError::NotRegistered)) => {}
        _ => panic!("heartbeat accepted"),
    }
}

#[test]
fn failures_are_retried_later_and_later() {
    let policy = BackoffPolicy::default();
    let mut runtime = AgentRuntime::with_bootstrap(Some(AgentBootstrap {
        agent_id: 5,
        auth_token: "known".to_string(),
    }));
    assert_eq!(runtime.agent_id().unwrap(), 5);
    for expected in [100u128, 200, 400] {
        match runtime.settle_claim(Err(TransportError::Http { status: 503 }), &policy, 0) {
            Exchange::Retry { delay, error } => {
                assert_eq!(delay, expected * MS);
                assert_eq!(error.message(), "unexpected status code: 503");
            }
            _ => panic!("claim settled"),
        }
    }
    assert_eq!(runtime.record_failure(AgentOperation::Heartbeat, &policy), 100 * MS);
    runtime.record_success(AgentOperation::Claim);
    assert_eq!(runtime.record_failure(AgentOperation::Claim, &policy), 100 * MS);
}

#[test]
fn statuses_are_checked() {
    assert!(check_status(200).is_ok());
    assert!(check_status(299).is_ok());
    assert!(matches!(check_status(199), Err(TransportError::Http { status: 199 })));
    assert!(matches!(check_status(300), Err(TransportError::Http { status: 300 })));
}

#[test]
fn errors_have_messages() {
    let text = || "x".to_string();
    assert_eq!(TransportError::Network(text()).message(), "network error: x");
    assert_eq!(TransportError::Serialization(text()).message(), "serialization error: x");
    assert_eq!(TransportError::InvalidEndpoint(text()).message(), "invalid endpoint: x");
    assert_eq!(TransportError::Backend(text()).message(), "backend error: x");
    let wrapped = ControlPlaneError::Transport(TransportError::Backend(text()));
    assert_eq!(wrapped.message(), "transport error: backend error: x");
    assert_eq!(RegisterRequest::default().hostname, None);
}

#[test]
fn endpoints_are_joined_to_the_base() {
    let mut transport = HttpControlPlaneTransport::new("HTTP://Example.com:8080").unwrap();
    assert_eq!(transport.endpoint("register").unwrap(), "http://example.com:8080/register");
    assert!(transport.auth_headers().is_empty());
    transport.set_auth_headers("7".to_string(), "secret".to_string());
    assert_eq!(
        transport.auth_headers(),
        vec![("X-Agent-Id", "7".to_string()), ("X-Agent-Token", "secret".to_string())]
    );
}

#[test]
fn invalid_endpoints_are_refused() {
    match HttpControlPlaneTransport::new("not a url") {
        Err(error) => assert_eq!(
            error.message(),
            "invalid endpoint: relative URL without a base"
        ),
        Ok(_) => panic!("address accepted"),
    }
    let transport = HttpControlPlaneTransport::new("http://example.com/").unwrap();
    assert!(matches!(
        transport.endpoint("http://[broken"),
        Err(TransportError::InvalidEndpoint(_))
    ));
}
