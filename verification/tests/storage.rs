use dns_agent::control_plane::{RegisterRequest, TaskKind, TaskSpec};
use dns_agent::kinds::KindMap;
use dns_agent::workers::storage::{
    check_credentials, check_heartbeat, claim_duration, claim_order, decide_extensions,
    given_hostname, lease_of, new_token, plan_registration, register_response, registration_with,
    report_response, window_lifetime, AgentRow, CredentialRow, ExtendRow, HeartbeatRow, Registration, StorageError,
};

#[test]
fn register_rotates_token() {
    let first = register_response(plan_registration(None), 12);
    assert_eq!(first.agent_id, 12);
    assert_eq!(first.lease_duration_ms, 60_000);
    assert_eq!(first.heartbeat_timeout_ms, 45_000);
    let row = AgentRow { id: 12, lease_duration_ms: 60_000, heartbeat_timeout_ms: 45_000 };
    let plan = plan_registration(Some(row));
    assert!(matches!(plan, Registration::Rotate { .. }));
    let second = register_response(plan, 99);
    assert_eq!(first.agent_id, second.agent_id);
    assert_ne!(first.auth_token, second.auth_token);
    assert_eq!(first.lease_duration_ms, second.lease_duration_ms);
    assert_eq!(first.heartbeat_timeout_ms, second.heartbeat_timeout_ms);
    let stored = || {
        Some(CredentialRow { auth_token: second.auth_token.clone(), revoked: 0, disabled: 0 })
    };
    let refused = check_credentials(stored(), 12, &first.auth_token);
    assert!(matches!(refused, Err(StorageError::Forbidden("invalid token"))));
    assert_eq!(check_credentials(stored(), 12, &second.auth_token).unwrap().agent_id, 12);
}

#[test]
fn registrations_carry_their_token() {
    let row = AgentRow { id: 5, lease_duration_ms: 10, heartbeat_timeout_ms: 20 };
    match registration_with(Some(row), "t".to_string()) {
        Registration::Rotate { agent, token } => assert_eq!((agent, token.as_str()), (row, "t")),
        other => panic!("unexpected plan {other:?}"),
    }
    match registration_with(None, "t".to_string()) {
        Registration::Create { lease_duration_ms, heartbeat_timeout_ms, token } => {
            assert_eq!((lease_duration_ms, heartbeat_timeout_ms), (60_000, 45_000));
            assert_eq!(token, "t");
        }
        other => panic!("unexpected plan {other:?}"),
    }
}

#[test]
fn tokens_are_unique_identifiers() {
    let token = new_token();
    assert_eq!(token.len(), 36);
    for (index, c) in token.chars().enumerate() {
        match index {
            8 | 13 | 18 | 23 => assert_eq!(c, '-'),
            14 => assert_eq!(c, '4'),
            19 => assert!("89ab".contains(c)),
            _ => assert!(c.is_ascii_digit() || ('a'..='f').contains(&c)),
        }
    }
    assert_ne!(token, new_token());
}

#[test]
fn hostnames_must_not_be_empty() {
    let given = |name: Option<&str>| {
        given_hostname(&RegisterRequest { hostname: name.map(|n| n.to_string()) })
    };
    assert_eq!(given(Some("agent.test")).as_deref(), Some("agent.test"));
    assert_eq!(given(Some("")), None);
    assert_eq!(given(None), None);
}

#[test]
fn heartbeats_are_checked() {
    let row = |revoked, disabled| HeartbeatRow { heartbeat_timeout_ms: 45_000, revoked, disabled };
    assert_eq!(check_heartbeat(Some(row(0, 0)), 3).unwrap().next_deadline_ms, 45_000);
    assert!(matches!(check_heartbeat(None, 3), Err(StorageError::AgentNotFound)));
    assert!(matches!(check_heartbeat(Some(row(1, 1)), 3), Err(StorageError::AgentRevoked)));
    assert!(matches!(check_heartbeat(Some(row(0, 1)), 3), Err(StorageError::AgentDisabled)));
}

#[test]
fn credentials_are_checked() {
    let row = |revoked, disabled| {
        Some(CredentialRow { auth_token: "secret".to_string(), revoked, disabled })
    };
    let identity = check_credentials(row(0, 0), 3, "secret").unwrap();
    assert_eq!((identity.agent_id, identity.token.as_str()), (3, "secret"));
    assert!(matches!(check_credentials(None, 3, "secret"), Err(StorageError::AgentNotFound)));
    let wrong = check_credentials(row(1, 1), 3, "guess").unwrap_err();
    assert_eq!(wrong.message(), "forbidden: invalid token");
    assert!(matches!(
        check_credentials(row(1, 1), 3, "secret"),
        Err(StorageError::AgentRevoked)
    ));
    assert!(matches!(
        check_credentials(row(0, 1), 3, "secret"),
        Err(StorageError::AgentDisabled)
    ));
}

#[test]
fn claims_follow_capacities() {
    let mut capacities = KindMap::new();
    capacities.insert(TaskKind::Trace, 1);
    capacities.insert(TaskKind::Http, 0);
    capacities.insert(TaskKind::Dns, 4);
    assert_eq!(claim_order(&capacities), vec![(TaskKind::Dns, 4), (TaskKind::Trace, 1)]);
    assert_eq!(claim_duration(Some(60_000)).unwrap(), 60_000);
    assert!(matches!(claim_duration(None), Err(StorageError::AgentNotFound)));
    let spec = TaskSpec::Dns { query: "a".to_string(), server: None };
    let lease = lease_of(5, 6, TaskKind::Dns, 60_000, spec.clone());
    assert_eq!((lease.lease_id, lease.task_id, lease.lease_until_ms), (5, 6, 60_000));
    assert_eq!(lease.spec, spec);
    assert_eq!(lease_of(-1, 0, TaskKind::Dns, 0, spec).lease_id, u64::MAX);
}

#[test]
fn only_leased_rows_are_extended() {
    let row = |lease_id, status: Option<&str>| ExtendRow {
        lease_id,
        status: status.map(|s| s.to_string()),
    };
    let batch = decide_extensions(
        &vec![row(1, Some("leased")), row(2, Some("completed")), row(3, None), row(4, Some("leased"))],
        500,
    );
    assert_eq!(batch.outcomes.iter().map(|o| o.lease_id).collect::<Vec<_>>(), vec![1, 4]);
    assert!(batch.outcomes.iter().all(|o| o.new_deadline_ms == 500));
    assert_eq!(batch.revoked, vec![2, 3]);
}

#[test]
fn reports_are_acknowledged() {
    assert_eq!(report_response(&vec![true, false, true]).acknowledged, 2);
    assert_eq!(report_response(&vec![]).acknowledged, 0);
}

#[test]
fn lifetimes_are_bounded() {
    assert_eq!(window_lifetime(300, 5), (300, 5));
    assert_eq!(window_lifetime(9_223_372_036_854_775, 807_000_000), (9_223_372_036_854_775, 807_000_000));
    assert_eq!(window_lifetime(9_223_372_036_854_775, 807_000_001), (300, 0));
    assert_eq!(window_lifetime(u64::MAX, 0), (300, 0));
}

#[test]
fn storage_errors_have_messages() {
    assert_eq!(StorageError::AgentNotFound.message(), "agent not found");
    assert_eq!(StorageError::AgentRevoked.message(), "agent revoked");
    assert_eq!(StorageError::AgentDisabled.message(), "agent disabled");
    assert_eq!(StorageError::LeaseNotFound.message(), "lease not found");
    assert_eq!(StorageError::TaskNotFound.message(), "task not found");
    assert_eq!(StorageError::Database("x".to_string()).message(), "x");
}
