use dns_agent::agent::{AgentEvent, AgentStep};
use dns_agent::control_plane::TaskKind;
use dns_agent::packet::{BytePacketBuf, PacketError};
use dns_agent::proxy::{
    bootstrap_from_env, finish_response, listen_address, max_inflight, upstream_address,
    upstream_timeout_ms, worker_capacities, BootstrapError, Variable,
};
use dns_agent::sort::sorted;
use dns_agent::text::{decimal, parse_unsigned};
use dns_agent::workers::pools::WorkerPoolsConfig;

fn follow(events: &[AgentEvent]) -> AgentStep {
    let mut step = AgentStep::Start;
    for event in events {
        step = step.next(*event);
    }
    step
}

#[test]
fn agents_register_and_claim() {
    assert_eq!(follow(&[AgentEvent::Known(true)]), AgentStep::Look);
    assert_eq!(follow(&[AgentEvent::Known(false)]), AgentStep::Register);
    let registered = [AgentEvent::Known(false), AgentEvent::Registered(true)];
    assert_eq!(follow(&registered), AgentStep::Look);
    let refused = [AgentEvent::Known(false), AgentEvent::Registered(false)];
    assert_eq!(follow(&refused), AgentStep::Stop);
    let look = AgentStep::Look;
    assert_eq!(
        look.next(AgentEvent::Looked { stopping: true, full: false }),
        AgentStep::Stop
    );
    let waiting = look.next(AgentEvent::Looked { stopping: false, full: true });
    assert_eq!(waiting, AgentStep::AwaitRoom);
    assert_eq!(waiting.next(AgentEvent::RoomChanged { full: true }), AgentStep::AwaitRoom);
    assert_eq!(waiting.next(AgentEvent::RoomChanged { full: false }), AgentStep::Claim);
    assert_eq!(waiting.next(AgentEvent::Interrupted), AgentStep::Stop);
}

#[test]
fn agents_pause_between_claims() {
    let claim = AgentStep::Claim;
    assert_eq!(claim.next(AgentEvent::Claimed(0)), AgentStep::Pause(250_000_000));
    assert_eq!(claim.next(AgentEvent::ClaimFailed), AgentStep::Pause(1_000_000_000));
    assert_eq!(AgentStep::Pause(1).next(AgentEvent::Paused), AgentStep::Look);
    assert_eq!(AgentStep::Pause(1).next(AgentEvent::Interrupted), AgentStep::Stop);
    assert_eq!(claim.next(AgentEvent::Interrupted), AgentStep::Stop);
}

#[test]
fn agents_hand_leases_on() {
    let mut step = AgentStep::Claim.next(AgentEvent::Claimed(2));
    assert_eq!(step, AgentStep::Track { left: 2 });
    step = step.next(AgentEvent::Followed);
    assert_eq!(step, AgentStep::Dispatch { left: 2 });
    step = step.next(AgentEvent::Dispatched);
    assert_eq!(step, AgentStep::Track { left: 1 });
    step = step.next(AgentEvent::Followed).next(AgentEvent::Dispatched);
    assert_eq!(step, AgentStep::Look);
    let lost = AgentStep::Dispatch { left: 2 }.next(AgentEvent::DispatchFailed);
    assert_eq!(lost, AgentStep::Forget);
    assert_eq!(lost.next(AgentEvent::Forgotten), AgentStep::Stop);
    assert_eq!(AgentStep::Track { left: 1 }.next(AgentEvent::Interrupted), AgentStep::Stop);
    assert_eq!(AgentStep::Stop.next(AgentEvent::Paused), AgentStep::Stop);
}

#[test]
fn answers_carry_the_request_identifier() {
    let mut request = BytePacketBuf::new();
    request.write_u16(0xabcd).unwrap();
    let mut response = BytePacketBuf::new();
    response.write_u32(0x11223344).unwrap();
    finish_response(&request, &mut response, 4).unwrap();
    assert_eq!(response.as_slice(), &[0xab, 0xcd, 0x33, 0x44]);
    assert_eq!(response.pos(), 0);
    assert_eq!(
        finish_response(&request, &mut response, 513),
        Err(PacketError::LengthExceedsBuffer)
    );
}

#[test]
fn settings_have_defaults() {
    let value = |text: &str| Some(text.to_string());
    assert_eq!(listen_address(None), "127.0.0.1:2053");
    assert_eq!(listen_address(value("[::1]:53")), "[::1]:53");
    assert_eq!(upstream_address(None), "127.0.0.1:5354");
    assert_eq!(upstream_address(value("8.8.8.8:53")), "8.8.8.8:53");
    assert_eq!(upstream_timeout_ms(&None), 2500);
    assert_eq!(upstream_timeout_ms(&value("0")), 0);
    assert_eq!(upstream_timeout_ms(&value("soon")), 2500);
    assert_eq!(max_inflight(&None), 2048);
    assert_eq!(max_inflight(&value("0")), 2048);
    assert_eq!(max_inflight(&value("7")), 7);
}

#[test]
fn credentials_come_together() {
    let present = |text: &str| Variable::Present(text.to_string());
    let known = bootstrap_from_env(present("7"), present("secret")).unwrap().unwrap();
    assert_eq!((known.agent_id, known.auth_token.as_str()), (7, "secret"));
    assert!(bootstrap_from_env(Variable::NotPresent, Variable::NotPresent).unwrap().is_none());
    let error = |agent, token| bootstrap_from_env(agent, token).unwrap_err();
    assert_eq!(error(present("x"), Variable::NotUnicode), BootstrapError::InvalidAgentId);
    assert_eq!(error(Variable::NotUnicode, present("s")), BootstrapError::AgentIdNotUnicode);
    assert_eq!(error(present("7"), Variable::NotUnicode), BootstrapError::TokenNotUnicode);
    assert_eq!(error(present("7"), Variable::NotPresent), BootstrapError::Incomplete);
    assert_eq!(error(Variable::NotPresent, present("s")), BootstrapError::Incomplete);
    assert_eq!(BootstrapError::InvalidAgentId.message(), "invalid AGENT_ID");
    assert_eq!(
        BootstrapError::Incomplete.message(),
        "AGENT_ID and AGENT_AUTH_TOKEN must both be set when bootstrapping"
    );
}

#[test]
fn capacities_are_pool_sizes() {
    let capacities = worker_capacities(&WorkerPoolsConfig::new());
    assert_eq!(capacities.get(TaskKind::Dns), Some(&4));
    assert_eq!(capacities.get(TaskKind::Trace), Some(&1));
}

#[test]
fn numbers_are_written_and_read() {
    for n in [0u64, 7, 10, 99, 100, 12345, u64::MAX] {
        assert_eq!(decimal(n), n.to_string());
        assert_eq!(parse_unsigned(&n.to_string(), u64::MAX), Some(n));
    }
    for text in ["", "+", "-1", "1x", " 1", "18446744073709551616", "99999999999999999999"] {
        assert_eq!(parse_unsigned(text, u64::MAX), text.parse::<u64>().ok());
    }
    assert_eq!(parse_unsigned("+007", u64::MAX), "+007".parse::<u64>().ok());
    assert_eq!(parse_unsigned("256", 255), None);
    assert_eq!(parse_unsigned("\u{661}", u64::MAX), None);
}

#[test]
fn durations_are_sorted() {
    assert_eq!(sorted(&vec![3, 1, 2, 3, 0]), vec![0, 1, 2, 3, 3]);
    assert_eq!(sorted(&vec![]), Vec::<u128>::new());
}
