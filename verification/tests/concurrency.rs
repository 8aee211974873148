use dns_agent::concurrency::controller::{
    ConcurrencyController, ConcurrencyLimits, Outcome, WindowSnapshot,
};
use dns_agent::concurrency::persistence::{
    acquired_windows, adjusted_windows, PersistedWindow, Scope,
};
use dns_agent::concurrency::window::WindowState;
use dns_agent::kinds::{kind_label, task_kinds, KindMap, TaskKind};

fn controller_for(kind_limit: usize, global: usize) -> ConcurrencyController {
    let mut map = KindMap::new();
    map.insert(TaskKind::Dns, kind_limit);
    let limits = ConcurrencyLimits::new(map, global);
    ConcurrencyController::new(limits)
}

#[test]
fn acquires_respect_limits() {
    let mut controller = controller_for(2, 2);
    let (first, _) = controller.try_acquire(TaskKind::Dns, 1).expect("first permit available");
    let (second, _) = controller.try_acquire(TaskKind::Dns, 2).expect("second permit available");

    assert_eq!(controller.refused_by(TaskKind::Dns, 3), Some(Scope::Global));
    let blocked = controller.try_acquire(TaskKind::Dns, 3);
    assert!(blocked.is_none(), "third acquisition should block");

    controller.release(first);
    assert_eq!(controller.refused_by(TaskKind::Dns, 3), None);
    let (third, _) = controller.try_acquire(TaskKind::Dns, 3).expect("third permit available");
    controller.release(second);
    controller.release(third);
}

#[test]
fn successes_increase_window_until_ceiling() {
    let mut controller = controller_for(4, 4);
    controller.record_success(TaskKind::Dns, 1);
    controller.record_success(TaskKind::Dns, 1);
    controller.record_success(TaskKind::Dns, 1);
    let available = controller.available(TaskKind::Dns);
    assert!(available >= 4, "window should grow towards ceiling");
    assert_eq!(available, 4);
}

#[test]
fn failures_reduce_window() {
    let mut controller = controller_for(4, 4);
    controller.record_error(TaskKind::Dns, 1);
    controller.record_error(TaskKind::Dns, 1);
    let available = controller.available(TaskKind::Dns);
    assert!(available <= 3, "window should shrink after errors");
    assert_eq!(available, 1);
}

#[test]
fn permits_name_their_task() {
    let mut controller = controller_for(2, 2);
    let (permit, windows) = controller.try_acquire(TaskKind::Dns, 9).unwrap();
    assert_eq!(permit.kind(), TaskKind::Dns);
    assert_eq!(permit.target(), 9);
    assert_eq!(windows.global, WindowSnapshot { limit: 2, inflight: 1 });
    assert_eq!(windows.kind, WindowSnapshot { limit: 2, inflight: 1 });
    assert_eq!(windows.target, WindowSnapshot { limit: 2, inflight: 1 });
    let released = controller.release(permit);
    assert!(released.notified);
    assert_eq!(released.global, WindowSnapshot { limit: 2, inflight: 0 });
    assert_eq!(released.kind, Some(WindowSnapshot { limit: 2, inflight: 0 }));
}

#[test]
fn targets_are_limited_separately() {
    let mut controller = controller_for(4, 10);
    controller.record_timeout(TaskKind::Dns, 1);
    controller.record_success(TaskKind::Dns, 2);
    controller.record_success(TaskKind::Dns, 2);
    assert!(controller.try_acquire(TaskKind::Dns, 1).is_some());
    assert!(controller.try_acquire(TaskKind::Dns, 1).is_some());
    assert!(controller.try_acquire(TaskKind::Dns, 1).is_none());
    assert!(controller.try_acquire(TaskKind::Dns, 2).is_some());
    assert_eq!(controller.available(TaskKind::Http), 1);
}

#[test]
fn growth_is_announced() {
    let mut controller = controller_for(4, 4);
    assert!(!controller.record_success(TaskKind::Dns, 1).notified);
    assert!(controller.apply_outcome(TaskKind::Dns, 1, Outcome::Timeout).notified);
    let grown = controller.record_success(TaskKind::Dns, 1);
    assert!(grown.notified);
    assert_eq!(grown.kind, Some(WindowSnapshot { limit: 3, inflight: 0 }));
}

#[test]
fn windows_keep_fractions() {
    let mut window = WindowState::new(5);
    assert_eq!(window.limit(), 5);
    window.decrease();
    assert_eq!(window.limit(), 2);
    assert!(window.increase());
    assert_eq!(window.limit(), 3);
    window.decrease();
    assert_eq!(window.limit(), 1);
    window.increase();
    assert_eq!(window.limit(), 2);
    window.increase();
    assert_eq!(window.limit(), 3);
    window.increase();
    window.increase();
    assert_eq!(window.limit(), 5);
    assert!(!window.increase());
}

#[test]
fn windows_move_as_doubles_do() {
    for max in [1usize, 2, 3, 4, 7, 100, 1_000_003, usize::MAX] {
        let mut window = WindowState::new(max);
        let ceiling = max as f64;
        let mut current = ceiling;
        let mut seed: u32 = 12345;
        for step in 0..2000 {
            let before = current.floor().max(1.0) as usize as f64;
            seed = seed.wrapping_mul(1664525).wrapping_add(1013904223);
            let success = if step < 1000 { step % 3 != 2 } else { seed >> 31 == 0 };
            if success {
                current = (current + 1.0).min(ceiling);
                assert_eq!(window.increase(), current - before > 0.0);
            } else {
                current = (current * 0.5).max(1.0);
                window.decrease();
            }
            assert_eq!(window.limit(), current.floor().max(1.0) as usize);
        }
    }
}

#[test]
fn limits_are_at_least_one() {
    let mut map = KindMap::new();
    map.insert(TaskKind::Tcp, 0);
    map.insert(TaskKind::Ping, 7);
    let limits = ConcurrencyLimits::new(map, 0);
    assert_eq!(limits.per_kind(TaskKind::Tcp), 1);
    assert_eq!(limits.per_kind(TaskKind::Ping), 7);
    assert_eq!(limits.per_kind(TaskKind::Trace), 1);
    let mut controller = ConcurrencyController::new(limits);
    assert!(controller.try_acquire(TaskKind::Ping, 1).is_some());
    assert!(controller.try_acquire(TaskKind::Ping, 1).is_none());
}

#[test]
fn windows_are_stored_under_their_scope() {
    let mut controller = controller_for(2, 3);
    let (permit, windows) = controller.try_acquire(TaskKind::Dns, 5).unwrap();
    let rows = acquired_windows(TaskKind::Dns, 5, &windows);
    assert_eq!(
        rows,
        vec![
            PersistedWindow { scope: Scope::Global, limit: 3, inflight: 1 },
            PersistedWindow { scope: Scope::Kind(TaskKind::Dns), limit: 2, inflight: 1 },
            PersistedWindow {
                scope: Scope::Target { kind: TaskKind::Dns, target: 5 },
                limit: 2,
                inflight: 1
            },
        ]
    );
    let key = rows[2].key();
    assert_eq!((key.scope, key.kind, key.target), ("target", Some("dns"), Some(5)));
    let key = rows[1].key();
    assert_eq!((key.scope, key.kind, key.target), ("kind", Some("dns"), None));
    let key = rows[0].key();
    assert_eq!((key.scope, key.kind, key.target), ("global", None, None));
    let released = controller.release(permit);
    assert_eq!(adjusted_windows(TaskKind::Dns, 5, &released).len(), 3);
}

#[test]
fn kinds_have_labels() {
    let labels: Vec<&str> = task_kinds().iter().map(|kind| kind_label(*kind)).collect();
    assert_eq!(labels, ["dns", "http", "tcp", "ping", "trace"]);
}

#[test]
fn kind_maps_hold_values() {
    let mut map: KindMap<u8> = KindMap::new();
    assert!(map.get(TaskKind::Http).is_none());
    map.insert(TaskKind::Http, 3);
    assert_eq!(map.get(TaskKind::Http), Some(&3));
    *map.slot_mut(TaskKind::Http) = Some(4);
    assert_eq!(map.remove(TaskKind::Http), Some(4));
    assert_eq!(map.remove(TaskKind::Http), None);
}

#[test]
fn running_tasks_add_up() {
    let mut controller = controller_for(3, 9);
    let (dns, _) = controller.try_acquire(TaskKind::Dns, 1).unwrap();
    let (http, _) = controller.try_acquire(TaskKind::Http, 1).unwrap();
    controller.record_error(TaskKind::Http, 1);
    let (_, windows) = controller.try_acquire(TaskKind::Dns, 2).unwrap();
    assert_eq!((windows.global.inflight, windows.kind.inflight), (3, 2));
    let after = controller.release(http);
    assert_eq!((after.global.inflight, after.kind.unwrap().inflight), (2, 0));
    let after = controller.release(dns);
    assert_eq!((after.global.inflight, after.kind.unwrap().inflight), (1, 1));
}
