use dns_agent::runtime::timer::{depth_is_excessive, lag_is_excessive, TimerError, TimerQueue};

const MS: u128 = 1_000_000;

#[test]
fn timer_fires_with_virtual_time() {
    let mut queue = TimerQueue::new();
    queue.schedule_at(40 * MS, "sleep");
    assert_eq!(queue.next_deadline(), Some(40 * MS));
    assert!(queue.fire_due(30 * MS).is_empty());
    let fired = queue.fire_due(50 * MS);
    assert_eq!(fired.len(), 1);
    assert_eq!(fired[0].task, "sleep");
    assert_eq!(queue.next_deadline(), None);
}

#[test]
fn timer_service_respects_virtual_time() {
    let mut queue = TimerQueue::new();
    queue.schedule_at(50 * MS, 1u8);
    assert!(
        queue.fire_due(40 * MS).is_empty(),
        "timer fired before virtual time advanced sufficiently"
    );
    assert_eq!(
        queue.fire_due(60 * MS).len(),
        1,
        "timer did not fire after advancing virtual time"
    );
}

#[test]
fn timers_fire_in_order() {
    let mut queue = TimerQueue::new();
    for (when, task) in [(30u128, 'c'), (10, 'a'), (20, 'b'), (10, 'd'), (40, 'e')] {
        queue.schedule_at(when, task);
    }
    assert_eq!(queue.len(), 5);
    let fired: Vec<char> = queue.fire_due(30).into_iter().map(|timer| timer.task).collect();
    assert_eq!(fired, ['a', 'd', 'b', 'c']);
    queue.schedule_at(5, 'f');
    let rest: Vec<char> = queue.drain().into_iter().map(|timer| timer.task).collect();
    assert_eq!(rest, ['f', 'e']);
    assert_eq!(queue.len(), 0);
    assert!(!queue.is_exhausted());
}

#[test]
fn late_timers_and_long_queues_are_noticed() {
    assert!(!lag_is_excessive(300 * MS, 100 * MS));
    assert!(lag_is_excessive(300 * MS + 1, 100 * MS));
    assert!(!lag_is_excessive(0, 100 * MS));
    assert!(!depth_is_excessive(1024));
    assert!(depth_is_excessive(1025));
    assert_eq!(TimerError::Closed.message(), "timer service has been shut down");
}
