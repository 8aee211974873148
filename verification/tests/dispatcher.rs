use dns_agent::control_plane::{Lease, TaskKind, TaskSpec};
use dns_agent::dispatcher::{
    Backpressure, DispatchError, DispatchedLease, DispatcherConfig, EnqueueStep, LeaseAssignment,
    QueueTracker, TrySend,
};

fn test_assignment(id: u64) -> LeaseAssignment<u32> {
    let lease = Lease {
        lease_id: id,
        task_id: id,
        kind: TaskKind::Dns,
        lease_until_ms: 0,
        spec: TaskSpec::Dns { query: format!("example-{id}.com"), server: None },
    };
    LeaseAssignment::new(lease, 77)
}

#[test]
fn dispatcher_backpressure_recovers_when_capacity_frees() {
    let mut tracker = QueueTracker::new(TaskKind::Dns);
    let mut backpressure = Backpressure::new();
    // initial state is not backpressured
    assert!(!backpressure.active);

    let mut first = DispatchedLease::new(test_assignment(1), 0);
    first.mark_enqueued(&mut tracker);
    assert_eq!(
        backpressure.after_try_send(&mut first, &mut tracker, TrySend::Sent),
        EnqueueStep::Done
    );
    assert_eq!(tracker.depth, 1);

    let mut second = DispatchedLease::new(test_assignment(2), 0);
    second.mark_enqueued(&mut tracker);
    assert_eq!(
        backpressure.after_try_send(&mut second, &mut tracker, TrySend::Full),
        EnqueueStep::Wait { announce: true }
    );
    assert!(backpressure.active);
    assert_eq!(tracker.depth, 2);

    // drain the first lease which should allow the second dispatch to proceed
    assert_eq!(first.assignment().lease().lease_id, 1);
    let _ = first.into_assignment(&mut tracker);

    let returned: Option<&mut DispatchedLease<u32>> = None;
    assert!(backpressure.after_send(returned, &mut tracker));
    assert!(!backpressure.active);

    // second lease should now be available in the queue
    assert_eq!(second.assignment().lease().lease_id, 2);
    assert_eq!(tracker.depth, 1);
    let (lease, token) = second.into_assignment(&mut tracker).into_parts();
    assert_eq!(tracker.depth, 0);
    assert_eq!((lease.lease_id, token), (2, 77));
}

#[test]
fn closed_queues_take_nothing() {
    let mut tracker = QueueTracker::new(TaskKind::Http);
    let mut backpressure = Backpressure::new();
    let mut item = DispatchedLease::new(test_assignment(3), 5);
    item.mark_enqueued(&mut tracker);
    assert_eq!(
        backpressure.after_try_send(&mut item, &mut tracker, TrySend::Closed),
        EnqueueStep::Done
    );
    assert_eq!(tracker.depth, 0);
    assert_eq!(item.lease().lease_id, 3);
    assert_eq!(item.waited(12), 7);
    assert_eq!(item.waited(1), 0);
    assert_eq!(item.into_lease(&mut tracker).task_id, 3);
    assert_eq!(tracker.depth, 0);
    assert_eq!(DispatchError::Closed.message(), "dispatcher has been shut down");
}

#[test]
fn queues_that_close_while_waiting_give_the_lease_back() {
    let mut tracker = QueueTracker::new(TaskKind::Dns);
    let mut backpressure = Backpressure::new();
    let mut item = DispatchedLease::new(test_assignment(4), 0);
    item.mark_enqueued(&mut tracker);
    backpressure.after_try_send(&mut item, &mut tracker, TrySend::Full);
    assert!(backpressure.after_send(Some(&mut item), &mut tracker));
    assert_eq!(tracker.depth, 0);
    assert!(!backpressure.shut_down());
}

#[test]
fn depth_never_falls_below_zero() {
    let mut tracker = QueueTracker::new(TaskKind::Ping);
    assert_eq!(tracker.kind(), TaskKind::Ping);
    tracker.decrement();
    assert_eq!(tracker.depth, 0);
    tracker.increment();
    tracker.increment();
    tracker.decrement();
    assert_eq!(tracker.depth, 1);
}

#[test]
fn leases_are_counted_once() {
    let mut tracker = QueueTracker::new(TaskKind::Ping);
    let mut item = DispatchedLease::new(test_assignment(4), 0);
    item.mark_enqueued(&mut tracker);
    item.mark_enqueued(&mut tracker);
    assert_eq!(tracker.depth, 1);
    item.undo_enqueue(&mut tracker);
    item.undo_enqueue(&mut tracker);
    assert_eq!(tracker.depth, 0);
    item.mark_enqueued(&mut tracker);
    assert_eq!(item.into_lease(&mut tracker).lease_id, 4);
    assert_eq!(tracker.depth, 0);
}

#[test]
fn queues_have_default_capacities() {
    let config = DispatcherConfig::default();
    assert_eq!(config.dispatch_capacity, 64);
    for kind in [TaskKind::Dns, TaskKind::Http, TaskKind::Tcp, TaskKind::Ping, TaskKind::Trace] {
        assert_eq!(config.capacity(kind), 32);
    }
}
