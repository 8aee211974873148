use dns_agent::concurrency::controller::{ConcurrencyController, ConcurrencyLimits};
use dns_agent::control_plane::{Lease, TaskKind, TaskSpec};
use dns_agent::kinds::KindMap;
use dns_agent::net::{Ipv4Addr, Ipv6Addr};
use dns_agent::observation::{Observation, ObservationValue};
use dns_agent::packet::PacketError;
use dns_agent::resolver::{
    AAAARecord, ARecord, MxRecord, NsRecord, Resolution, ResolveError, TxtRecord,
};
use dns_agent::workers::dns::{dns_report, DnsStart, DnsWorker, HttpWorker};
use dns_agent::workers::pools::{
    pool_plans, pool_variable, settle_task, trace_runtime_variable, HandlerOutcome,
    TraceRuntimeError, WorkerPoolsConfig,
};
use dns_agent::workers::report::WorkerReport;

fn text(observation: &Observation, key: &str) -> String {
    match &observation.value {
        ObservationValue::Fields(fields) => {
            let found = fields.iter().find(|f| f.key == key).expect("field present");
            format!("{:?}", found.value)
        }
        other => panic!("unexpected value {other:?}"),
    }
}

fn flag(name: &str) -> Observation {
    Observation { name: name.to_string(), value: ObservationValue::Bool(true), unit: None }
}

#[test]
fn dns_worker_emits_record_observations() {
    let lease = Lease {
        lease_id: 900,
        task_id: 900,
        kind: TaskKind::Dns,
        lease_until_ms: 0,
        spec: TaskSpec::Dns {
            query: "records.example".to_string(),
            server: Some("127.0.0.1:53".to_string()),
        },
    };
    let (lease_id, query, server) = match DnsWorker::begin(lease, false) {
        DnsStart::Resolve { lease_id, query, server } => (lease_id, query, server.unwrap()),
        DnsStart::Report(_) => panic!("lease not started"),
    };
    let resolution = Resolution {
        qname: query.clone(),
        a_records: vec![ARecord { addr: Ipv4Addr::new(1, 2, 3, 4), ttl: 120 }],
        aaaa_records: vec![AAAARecord { addr: Ipv6Addr::localhost(), ttl: 240 }],
        mx_records: vec![MxRecord {
            preference: 10,
            exchange: "mail.example.com".to_string(),
            ttl: 360,
        }],
        ns_records: vec![NsRecord { host: "ns1.example.com".to_string(), ttl: 480 }],
        txt_records: vec![TxtRecord { data: vec!["hello".to_string()], ttl: 600 }],
        ttl_secs: 120,
    };
    let report = dns_report(lease_id, &query, &server, &Ok(resolution), false);
    let (completed, cancelled) = report.into_parts();
    assert!(cancelled.is_empty(), "dns lease should not be cancelled");
    assert_eq!(completed.len(), 1, "expected a single completed lease");
    assert_eq!(completed[0].lease_id, 900);
    let observations = &completed[0].observations;
    let find = |name: &str| -> &Observation {
        observations
            .iter()
            .find(|obs| obs.name == name)
            .unwrap_or_else(|| panic!("missing observation {name}"))
    };
    let a_record = find("dns_a_record");
    assert_eq!(text(a_record, "query"), "Text(\"records.example\")");
    assert_eq!(text(a_record, "server"), "Text(\"127.0.0.1:53\")");
    assert_eq!(text(a_record, "address"), "Ip(V4(Ipv4Addr { bits: 16909060 }))");
    assert_eq!(text(a_record, "ttl"), "Number(120)");
    let aaaa_record = find("dns_aaaa_record");
    assert_eq!(text(aaaa_record, "address"), "Ip(V6(Ipv6Addr { w0: 0, w1: 0, w2: 0, w3: 1 }))");
    assert_eq!(text(aaaa_record, "ttl"), "Number(240)");
    let mx_record = find("dns_mx_record");
    assert_eq!(text(mx_record, "exchange"), "Text(\"mail.example.com\")");
    assert_eq!(text(mx_record, "preference"), "Number(10)");
    assert_eq!(text(mx_record, "ttl"), "Number(360)");
    let ns_record = find("dns_ns_record");
    assert_eq!(text(ns_record, "host"), "Text(\"ns1.example.com\")");
    assert_eq!(text(ns_record, "ttl"), "Number(480)");
    let txt_record = find("dns_txt_record");
    assert_eq!(text(txt_record, "data"), "Texts([\"hello\"])");
    assert_eq!(text(txt_record, "ttl"), "Number(600)");
    assert!(
        observations.iter().all(|obs| obs.name != "dns_error"),
        "successful resolution should not emit errors"
    );
}

#[test]
fn failed_resolutions_are_reported() {
    let error = Err(ResolveError::Packet(PacketError::EndOfBuffer));
    let (completed, _) = dns_report(1, "q", "s", &error, false).into_parts();
    assert_eq!(completed[0].observations.len(), 1);
    assert_eq!(completed[0].observations[0].name, "dns_error");
    assert_eq!(text(&completed[0].observations[0], "error"), "Text(\"End of buffer\")");
    let (completed, cancelled) = dns_report(1, "q", "s", &error, true).into_parts();
    assert!(completed.is_empty());
    assert!(cancelled[0].observations.is_empty());
}

#[test]
fn simple_leases_are_completed() {
    let lease = |spec| Lease { lease_id: 5, task_id: 1, kind: TaskKind::Dns, lease_until_ms: 0, spec };
    let http = TaskSpec::Http { url: "u".to_string(), method: Some("GET".to_string()) };
    match DnsWorker::begin(lease(http.clone()), false) {
        DnsStart::Report(report) => assert_eq!(report.into_parts().0[0].lease_id, 5),
        DnsStart::Resolve { .. } => panic!("lease started"),
    }
    match DnsWorker::begin(lease(http), true) {
        DnsStart::Report(report) => assert_eq!(report.into_parts().1[0].lease_id, 5),
        DnsStart::Resolve { .. } => panic!("lease started"),
    }
    assert_eq!(HttpWorker::handle(3, false).into_parts().0[0].lease_id, 3);
    assert_eq!(HttpWorker::handle(3, true).into_parts().1[0].lease_id, 3);
}

#[test]
fn reports_collect_observations() {
    let report = WorkerReport::completed_many(vec![1, 2, 1])
        .merge(WorkerReport::cancelled_many(vec![3, 1]))
        .with_observation(1, flag("a"))
        .with_observations(3, vec![flag("b"), flag("c")])
        .with_observation(9, flag("lost"))
        .with_observation(1, flag("d"));
    assert!(!report.is_empty());
    let (completed, cancelled) = report.into_parts();
    let names = |list: &[Observation]| list.iter().map(|o| o.name.clone()).collect::<Vec<_>>();
    assert_eq!(completed.iter().map(|r| r.lease_id).collect::<Vec<_>>(), vec![1, 2, 1]);
    assert_eq!(names(&completed[0].observations), ["a", "d"]);
    assert!(completed[2].observations.is_empty());
    assert_eq!(cancelled.iter().map(|r| r.lease_id).collect::<Vec<_>>(), vec![3, 1]);
    assert_eq!(names(&cancelled[0].observations), ["b", "c"]);
    assert!(WorkerReport::completed_many(vec![]).is_empty());
    assert!(!WorkerReport::cancelled(1).is_empty());
}

#[test]
fn pools_have_default_sizes() {
    let mut config = WorkerPoolsConfig::default();
    let sizes = |config: &WorkerPoolsConfig| {
        [TaskKind::Dns, TaskKind::Http, TaskKind::Tcp, TaskKind::Ping, TaskKind::Trace]
            .map(|kind| config.concurrency(kind))
    };
    assert_eq!(sizes(&config), [4, 2, 2, 2, 1]);
    assert_eq!(config.trace_runtime_workers(), 2);
    assert_eq!(config.concurrency_limits().global, 11);
    config.set_concurrency(TaskKind::Http, 0);
    assert_eq!(config.concurrency(TaskKind::Http), 1);
    config.set_concurrency(TaskKind::Http, 9);
    assert_eq!(config.concurrency_limits().per_kind(TaskKind::Http), 9);
    assert_eq!(config.concurrency_limits().global, 18);
}

#[test]
fn pools_are_sized_by_the_environment() {
    let mut sizes = KindMap::new();
    sizes.insert(TaskKind::Dns, "8".to_string());
    sizes.insert(TaskKind::Http, "0".to_string());
    sizes.insert(TaskKind::Tcp, "many".to_string());
    sizes.insert(TaskKind::Ping, "+3".to_string());
    let config = WorkerPoolsConfig::from_env(&sizes, Some("5".to_string()));
    assert_eq!(config.concurrency(TaskKind::Dns), 8);
    assert_eq!(config.concurrency(TaskKind::Http), 2);
    assert_eq!(config.concurrency(TaskKind::Tcp), 2);
    assert_eq!(config.concurrency(TaskKind::Ping), 3);
    assert_eq!(config.concurrency(TaskKind::Trace), 1);
    assert_eq!(config.trace_runtime_workers(), 5);
    let config = WorkerPoolsConfig::from_env(&KindMap::new(), Some("0".to_string()));
    assert_eq!(config.trace_runtime_workers(), 2);
    assert_eq!(pool_variable(TaskKind::Trace), "AGENT_POOL_TRACE_SIZE");
    assert_eq!(trace_runtime_variable(), "AGENT_TRACE_RUNTIME_WORKERS");
}

#[test]
fn traces_have_their_own_runtime() {
    let plans = pool_plans(&WorkerPoolsConfig::new());
    assert_eq!(plans.iter().map(|p| p.label).collect::<Vec<_>>(), ["dns", "http", "tcp", "ping", "trace"]);
    assert_eq!(plans[4].runtime, Some((2, 8)));
    assert!(plans[..4].iter().all(|p| p.runtime.is_none()));
    assert_eq!(TraceRuntimeError::ChannelClosed.message(), "trace runtime channel closed");
}

#[test]
fn outcomes_adjust_the_windows() {
    let mut per_kind = KindMap::new();
    per_kind.insert(TaskKind::Dns, 4);
    let mut controller = ConcurrencyController::new(ConcurrencyLimits::new(per_kind, 4));
    let (permit, _) = controller.try_acquire(TaskKind::Dns, 1).unwrap();
    let settled = settle_task(&mut controller, &permit, HandlerOutcome::Failed);
    assert!(settled.report.is_none());
    assert_eq!(settled.adjustment.kind.unwrap().limit, 2);
    let settled = settle_task(&mut controller, &permit, HandlerOutcome::Panicked);
    assert_eq!(settled.adjustment.kind.unwrap().limit, 1);
    let report = HandlerOutcome::Report(WorkerReport::completed(8));
    let settled = settle_task(&mut controller, &permit, report);
    assert_eq!(settled.adjustment.kind.unwrap().limit, 2);
    assert_eq!(settled.report.unwrap().0[0].lease_id, 8);
    let nothing = HandlerOutcome::Report(WorkerReport::completed_many(vec![]));
    assert!(settle_task(&mut controller, &permit, nothing).report.is_none());
    assert_eq!(controller.release(permit).global.inflight, 0);
}
