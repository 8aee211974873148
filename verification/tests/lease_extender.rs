use dns_agent::control_plane::{ExtendOutcome, Lease, TaskKind, TaskSpec};
use dns_agent::lease_extender::{
    LeaseCommand, LeaseExtendUpdate, LeaseExtenderConfig, LeaseExtenderError, LeaseTable,
};

fn lease(id: u64, until_ms: u64) -> Lease {
    Lease {
        lease_id: id,
        task_id: 100 + id,
        kind: TaskKind::Http,
        lease_until_ms: until_ms,
        spec: TaskSpec::Http { url: "http://example.com".to_string(), method: None },
    }
}

fn sorted(mut ids: Vec<u64>) -> Vec<u64> {
    ids.sort();
    ids
}

#[test]
fn expired_leases_are_cancelled() {
    let mut table: LeaseTable<&str> = LeaseTable::new();
    table.track(&lease(1, 5), "one", 0);
    table.track(&lease(2, 10), "two", 0);
    assert!(table.cancel_expired(4_999_999).is_empty());
    assert_eq!(table.cancel_expired(5_000_000), vec![(1, "one")]);
    assert_eq!(table.lease_ids(), vec![2]);
}

#[test]
fn extensions_move_deadlines() {
    let mut table: LeaseTable<&str> = LeaseTable::new();
    table.track(&lease(1, 5), "one", 0);
    table.track(&lease(2, 5), "two", 0);
    let update = LeaseExtendUpdate {
        outcomes: vec![
            ExtendOutcome { lease_id: 1, new_deadline_ms: 500 },
            ExtendOutcome { lease_id: 9, new_deadline_ms: 500 },
        ],
        revoked: vec![],
    };
    assert!(table.apply_update(&update, 1_000_000).is_empty());
    assert_eq!(table.cancel_expired(6_000_000), vec![(2, "two")]);
    assert!(table.cancel_expired(500_999_999).is_empty());
    assert_eq!(table.cancel_expired(501_000_000), vec![(1, "one")]);
    assert!(table.is_empty());
}

#[test]
fn revoked_tasks_are_cancelled() {
    let mut table: LeaseTable<u8> = LeaseTable::new();
    table.track(&lease(1, 5), 11, 0);
    table.track(&lease(2, 5), 22, 0);
    let update = LeaseExtendUpdate { outcomes: vec![], revoked: vec![102, 999] };
    assert_eq!(table.apply_update(&update, 0), vec![(2, 22)]);
    assert_eq!(table.revoke(1), Some(11));
    assert_eq!(table.revoke(1), None);
    assert!(table.is_empty());
}

#[test]
fn commands_are_carried_out() {
    let mut table: LeaseTable<u8> = LeaseTable::new();
    let (cancelled, goes_on) =
        table.carry_out(LeaseCommand::Track { lease: lease(1, 5), token: 1 }, 0);
    assert!(cancelled.is_empty() && goes_on);
    let (cancelled, _) =
        table.carry_out(LeaseCommand::Track { lease: lease(2, 50), token: 2 }, 6_000_000);
    assert_eq!(cancelled, vec![(1, 1)]);
    table.carry_out(LeaseCommand::Track { lease: lease(3, 50), token: 3 }, 6_000_000);
    table.carry_out(LeaseCommand::Track { lease: lease(4, 50), token: 4 }, 6_000_000);
    table.carry_out(LeaseCommand::Track { lease: lease(5, 50), token: 5 }, 6_000_000);
    let (cancelled, _) = table.carry_out(LeaseCommand::Finish { lease_id: 2 }, 6_000_000);
    assert!(cancelled.is_empty());
    let (cancelled, _) = table.carry_out(LeaseCommand::Revoke { lease_id: 3 }, 6_000_000);
    assert_eq!(cancelled, vec![(3, 3)]);
    assert_eq!(sorted(table.lease_ids()), vec![4, 5]);
    let (cancelled, goes_on) = table.carry_out(LeaseCommand::Shutdown, 6_000_000);
    assert!(!goes_on);
    assert_eq!(sorted(cancelled.into_iter().map(|c| c.0).collect()), vec![4, 5]);
    assert!(table.is_empty());
}

#[test]
fn closed_extenders_say_so() {
    assert_eq!(LeaseExtenderError::Closed.message(), "lease extender has shut down");
    let config = LeaseExtenderConfig { extend_every: 2, extend_by: 1 };
    assert_eq!(config.extend_by, 1);
}
