use dns_agent::control_plane::{Lease, TaskKind, TaskSpec, TcpSpec};
use dns_agent::net::{IpAddr, Ipv4Addr, Ipv6Addr, SocketAddr};
use dns_agent::observation::{Observation, ObservationValue};
use dns_agent::workers::tcp::{
    begin_tcp, delay_for, order_addresses, resolve_targets, tcp_report, tcp_targets,
    BlockingLookup, ConnectError, TcpAttempt, TcpRace, TcpStart,
};

fn v4(last: u8) -> SocketAddr {
    SocketAddr::new(IpAddr::V4(Ipv4Addr::new(127, 0, 0, last)), 80)
}

fn v6(last: u16) -> SocketAddr {
    SocketAddr::new(IpAddr::V6(Ipv6Addr::new(0, 0, 0, 0, 0, 0, 0, last)), 80)
}

fn text(observation: &Observation, key: &str) -> String {
    match &observation.value {
        ObservationValue::Fields(fields) => {
            let found = fields.iter().find(|f| f.key == key).expect("field present");
            format!("{:?}", found.value)
        }
        other => panic!("unexpected value {other:?}"),
    }
}

fn refused() -> ConnectError {
    ConnectError { message: "refused".to_string(), errno: Some(111) }
}

#[test]
fn tcp_worker_happy_eyeballs_fallback() {
    let addresses = resolve_targets(
        "localhost",
        Ok(vec![v4(1), v6(1)]),
        BlockingLookup::Found(vec![v4(1), v6(1)]),
    )
    .unwrap();
    assert_eq!(addresses, vec![v6(1), v4(1)]);

    let mut race = TcpRace::new();
    assert!(!race.record(TcpAttempt::new(0, v6(1)).failure(3_000_000, refused())));
    assert!(race.record(TcpAttempt::new(1, v4(1)).success(5_000_000)));
    let (completed, cancelled) = tcp_report(700, race, false).into_parts();
    assert!(cancelled.is_empty(), "tcp lease should not be cancelled");
    assert_eq!(completed.len(), 1, "expected a single completed lease");
    let observations = &completed[0].observations;
    assert_eq!(observations.len(), 3);
    assert_eq!(observations[0].name, "tcp_attempt");
    assert_eq!(text(&observations[0], "success"), "Bool(false)");
    assert_eq!(text(&observations[0], "error"), "Text(\"refused\")");
    assert_eq!(text(&observations[0], "errno"), "Errno(111)");
    assert_eq!(text(&observations[1], "success"), "Bool(true)");
    assert_eq!(text(&observations[1], "attempt"), "Number(1)");
    let summary = &observations[2];
    assert_eq!(summary.name, "tcp_summary");
    assert_eq!(text(summary, "success"), "Bool(true)");
    assert_eq!(text(summary, "rtt_ms"), "Millis(5000000)");
    assert_eq!(text(summary, "address"), format!("Address({:?})", v4(1)));
}

#[test]
fn failures_are_summarised() {
    let mut race = TcpRace::new();
    race.record(TcpAttempt::new(0, v6(1)).failure(3, refused()));
    let plain = ConnectError { message: "reset".to_string(), errno: None };
    race.record(TcpAttempt::new(1, v4(1)).failure(4, plain));
    let (completed, _) = tcp_report(1, race, false).into_parts();
    let summary = completed[0].observations.last().unwrap();
    assert_eq!(text(summary, "success"), "Bool(false)");
    assert_eq!(text(summary, "error"), "Text(\"reset\")");
    assert_eq!(text(summary, "errno"), "Null");
    assert_eq!(text(summary, "rtt_ms"), "Millis(4)");
}

#[test]
fn the_first_success_counts() {
    let mut race = TcpRace::new();
    assert!(race.record(TcpAttempt::new(1, v4(1)).success(5)));
    assert!(!race.record(TcpAttempt::new(0, v6(1)).success(6)));
    assert!(!race.record(TcpAttempt::new(2, v4(2)).superseded(0)));
    let (completed, _) = tcp_report(1, race, false).into_parts();
    let observations = &completed[0].observations;
    assert_eq!(text(&observations[2], "reason"), "Text(\"superseded\")");
    assert_eq!(text(&observations[2], "cancelled"), "Bool(true)");
    assert_eq!(text(&observations[3], "rtt_ms"), "Millis(5)");
}

#[test]
fn cancelled_checks_are_reported_as_such() {
    let mut race = TcpRace::new();
    race.record(TcpAttempt::new(0, v6(1)).failure(3, refused()));
    race.record(TcpAttempt::new(1, v4(1)).cancelled(9));
    let (completed, cancelled) = tcp_report(1, race, false).into_parts();
    assert!(completed.is_empty());
    let summary = cancelled[0].observations.last().unwrap();
    assert_eq!(text(summary, "cancelled"), "Bool(true)");
    assert_eq!(text(summary, "reason"), "Text(\"cancelled\")");
    let (_, cancelled) = tcp_report(2, TcpRace::new(), true).into_parts();
    assert_eq!(text(&cancelled[0].observations[0], "address"), "Null");
    let (completed, _) = tcp_report(3, TcpRace::new(), false).into_parts();
    assert!(completed[0].observations.is_empty());
}

#[test]
fn families_alternate() {
    assert_eq!(
        order_addresses(vec![v4(1), v4(2), v6(1), v4(3), v6(2)]),
        vec![v6(1), v4(1), v6(2), v4(2), v4(3)]
    );
    assert_eq!(order_addresses(vec![]), vec![]);
    assert_eq!(order_addresses(vec![v6(3), v6(1)]), vec![v6(3), v6(1)]);
}

#[test]
fn lookups_are_joined() {
    let failed = |text: &str| Err(text.to_string());
    assert_eq!(
        resolve_targets("h", failed("x"), BlockingLookup::Found(vec![v4(1), v4(1)])).unwrap(),
        vec![v4(1)]
    );
    assert_eq!(
        resolve_targets("h", failed("x"), BlockingLookup::Failed("y".to_string())).unwrap_err(),
        "async resolver failed: x"
    );
    assert_eq!(
        resolve_targets("h", Ok(vec![]), BlockingLookup::Failed("y".to_string())).unwrap_err(),
        "std resolver failed: y"
    );
    assert_eq!(
        resolve_targets("h", Ok(vec![]), BlockingLookup::Aborted("z".to_string())).unwrap_err(),
        "blocking resolver join error: z"
    );
    assert_eq!(
        resolve_targets("h", Ok(vec![]), BlockingLookup::Found(vec![])).unwrap_err(),
        "no socket addresses resolved for host h"
    );
}

#[test]
fn attempts_start_one_after_the_other() {
    assert_eq!(delay_for(0), 0);
    assert_eq!(delay_for(1), 250_000_000);
    assert_eq!(delay_for(4), 1_000_000_000);
}

#[test]
fn tcp_leases_are_started() {
    let spec = TcpSpec { host: "h".to_string(), port: 80 };
    let lease = |spec| Lease { lease_id: 7, task_id: 1, kind: TaskKind::Tcp, lease_until_ms: 0, spec };
    assert!(matches!(
        begin_tcp(lease(TaskSpec::Tcp(spec.clone())), false),
        TcpStart::Resolve { lease_id: 7, .. }
    ));
    match begin_tcp(lease(TaskSpec::Tcp(spec.clone())), true) {
        TcpStart::Report(report) => {
            let (_, cancelled) = report.into_parts();
            assert_eq!(cancelled[0].observations[0].name, "tcp_summary");
            assert_eq!(text(&cancelled[0].observations[0], "reason"), "Null");
        }
        _ => panic!("lease started"),
    }
    let other = TaskSpec::Dns { query: "q".to_string(), server: None };
    assert!(matches!(begin_tcp(lease(other), false), TcpStart::Unexpected(_)));
    assert_eq!(tcp_targets(7, &spec, Ok(vec![v4(1)])).unwrap(), vec![v4(1)]);
    let (completed, _) = tcp_targets(7, &spec, Ok(vec![])).unwrap_err().into_parts();
    assert_eq!(
        text(&completed[0].observations[0], "error"),
        "Text(\"no socket addresses resolved\")"
    );
    assert_eq!(text(&completed[0].observations[0], "port"), "Number(80)");
    let (completed, _) = tcp_targets(7, &spec, Err("lost".to_string())).unwrap_err().into_parts();
    assert_eq!(text(&completed[0].observations[0], "error"), "Text(\"lost\")");
}
