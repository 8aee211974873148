//! Distribution of leases to queues, with backpressure.

use vstd::prelude::*;

use crate::control_plane::Lease;
use crate::kinds::TaskKind;

verus! {

/// How many leases the queues hold.
#[derive(Debug, Clone, Copy, PartialEq, Eq, Structural)]
pub struct DispatcherConfig {
    pub dispatch_capacity: usize,
    pub dns_queue_capacity: usize,
    pub http_queue_capacity: usize,
    pub tcp_queue_capacity: usize,
    pub ping_queue_capacity: usize,
    pub trace_queue_capacity: usize,
}

impl Default for DispatcherConfig {
    fn default() -> (r: DispatcherConfig)
        ensures
            r == (DispatcherConfig {
                dispatch_capacity: 64,
                dns_queue_capacity: 32,
                http_queue_capacity: 32,
                tcp_queue_capacity: 32,
                ping_queue_capacity: 32,
                trace_queue_capacity: 32,
            }),
    {
        DispatcherConfig {
            dispatch_capacity: 64,
            dns_queue_capacity: 32,
            http_queue_capacity: 32,
            tcp_queue_capacity: 32,
            ping_queue_capacity: 32,
            trace_queue_capacity: 32,
        }
    }
}

impl DispatcherConfig {
    /// The capacity of the queue for a kind.
    pub fn capacity(&self, kind: TaskKind) -> (r: usize)
        ensures
            r == match kind {
                TaskKind::Dns => self.dns_queue_capacity,
                TaskKind::Http => self.http_queue_capacity,
                TaskKind::Tcp => self.tcp_queue_capacity,
                TaskKind::Ping => self.ping_queue_capacity,
                TaskKind::Trace => self.trace_queue_capacity,
            },
    {
        match kind {
            TaskKind::Dns => self.dns_queue_capacity,
            TaskKind::Http => self.http_queue_capacity,
            TaskKind::Tcp => self.tcp_queue_capacity,
            TaskKind::Ping => self.ping_queue_capacity,
            TaskKind::Trace => self.trace_queue_capacity,
        }
    }
}

/// Why a lease could not be dispatched.
#[derive(Debug, Clone, Copy, PartialEq, Eq, Structural)]
pub enum DispatchError {
    Closed,
}

impl DispatchError {
    /// The message shown to users.
    pub fn message(&self) -> (r: &'static str)
        ensures
            r@ == "dispatcher has been shut down"@,
    {
        "dispatcher has been shut down"
    }
}

/// A lease and the token by which its execution is cancelled.
pub struct LeaseAssignment<T> {
    pub lease: Lease,
    pub token: T,
}

impl<T> LeaseAssignment<T> {
    pub fn new(lease: Lease, token: T) -> (r: LeaseAssignment<T>)
        ensures
            r.lease == lease,
            r.token == token,
    {
        LeaseAssignment { lease, token }
    }

    pub fn lease(&self) -> (r: &Lease)
        ensures
            *r == self.lease,
    {
        &self.lease
    }

    pub fn into_parts(self) -> (r: (Lease, T))
        ensures
            r == (self.lease, self.token),
    {
        (self.lease, self.token)
    }
}

/// How many leases a queue holds.
#[derive(Debug, Clone, Copy, PartialEq, Eq, Structural)]
pub struct QueueTracker {
    pub kind: TaskKind,
    pub depth: usize,
}

/// `n` plus one, starting over after the largest number.
pub open spec fn deeper(n: usize) -> usize {
    if n == usize::MAX {
        0
    } else {
        (n + 1) as usize
    }
}

/// `n` minus one, but not below zero.
pub open spec fn shallower(n: usize) -> usize {
    if n == 0 {
        0
    } else {
        (n - 1) as usize
    }
}

impl QueueTracker {
    pub fn new(kind: TaskKind) -> (r: QueueTracker)
        ensures
            r == (QueueTracker { kind, depth: 0 }),
    {
        QueueTracker { kind, depth: 0 }
    }

    pub fn kind(&self) -> (r: TaskKind)
        ensures
            r == self.kind,
    {
        self.kind
    }

    pub fn increment(&mut self)
        ensures
            *final(self) == (QueueTracker { depth: deeper(old(self).depth), ..*old(self) }),
    {
        self.depth = self.depth.wrapping_add(1);
    }

    pub fn decrement(&mut self)
        ensures
            *final(self) == (QueueTracker { depth: shallower(old(self).depth), ..*old(self) }),
    {
        if self.depth > 0 {
            self.depth = self.depth - 1;
        }
    }
}

/// A lease on its way through a queue.
pub struct DispatchedLease<T> {
    assignment: LeaseAssignment<T>,
    /// When the lease was dispatched, in nanoseconds of the process clock.
    enqueued_at: u64,
    /// Whether the depth of the queue counts the lease.
    counted: bool,
}

impl<T> DispatchedLease<T> {
    pub closed spec fn content(&self) -> LeaseAssignment<T> {
        self.assignment
    }

    pub closed spec fn since(&self) -> u64 {
        self.enqueued_at
    }

    pub closed spec fn is_counted(&self) -> bool {
        self.counted
    }

    pub fn new(assignment: LeaseAssignment<T>, enqueued_at: u64) -> (r: DispatchedLease<T>)
        ensures
            r.content() == assignment,
            r.since() == enqueued_at,
            !r.is_counted(),
    {
        DispatchedLease { assignment, enqueued_at, counted: false }
    }

    /// Counts the lease, unless it is counted already.
    pub fn mark_enqueued(&mut self, tracker: &mut QueueTracker)
        ensures
            final(self).is_counted(),
            final(self).content() == old(self).content(),
            final(self).since() == old(self).since(),
            *final(tracker) == (QueueTracker {
                depth: if old(self).is_counted() {
                    old(tracker).depth
                } else {
                    deeper(old(tracker).depth)
                },
                ..*old(tracker)
            }),
    {
        if !self.counted {
            tracker.increment();
            self.counted = true;
        }
    }

    /// No longer counts the lease.
    pub fn undo_enqueue(&mut self, tracker: &mut QueueTracker)
        ensures
            !final(self).is_counted(),
            final(self).content() == old(self).content(),
            final(self).since() == old(self).since(),
            *final(tracker) == (QueueTracker {
                depth: if old(self).is_counted() {
                    shallower(old(tracker).depth)
                } else {
                    old(tracker).depth
                },
                ..*old(tracker)
            }),
    {
        if self.counted {
            tracker.decrement();
            self.counted = false;
        }
    }

    pub fn lease(&self) -> (r: &Lease)
        ensures
            *r == self.content().lease,
    {
        &self.assignment.lease
    }

    /// Takes the lease out of its queue, which no longer counts it.
    pub fn into_lease(self, tracker: &mut QueueTracker) -> (r: Lease)
        ensures
            r == self.content().lease,
            *final(tracker) == (QueueTracker {
                depth: if self.is_counted() {
                    shallower(old(tracker).depth)
                } else {
                    old(tracker).depth
                },
                ..*old(tracker)
            }),
    {
        self.into_assignment(tracker).lease
    }

    pub fn assignment(&self) -> (r: &LeaseAssignment<T>)
        ensures
            *r == self.content(),
    {
        &self.assignment
    }

    /// Takes the lease and its token out of their queue, which no longer counts them.
    pub fn into_assignment(self, tracker: &mut QueueTracker) -> (r: LeaseAssignment<T>)
        ensures
            r == self.content(),
            *final(tracker) == (QueueTracker {
                depth: if self.is_counted() {
                    shallower(old(tracker).depth)
                } else {
                    old(tracker).depth
                },
                ..*old(tracker)
            }),
    {
        let mut item: DispatchedLease<T> = self;
        item.undo_enqueue(tracker);
        item.assignment
    }

    /// How long the lease has been on its way at `now`, in nanoseconds.
    pub fn waited(&self, now: u64) -> (r: u64)
        ensures
            r == (if now >= self.since() {
                now - self.since()
            } else {
                0
            }),
    {
        now.saturating_sub(self.enqueued_at)
    }
}

/// What came of putting a lease into its queue without waiting.
#[derive(Debug, Clone, Copy, PartialEq, Eq, Structural)]
pub enum TrySend {
    Sent,
    Full,
    Closed,
}

/// What the dispatcher does next with a lease.
#[derive(Debug, Clone, Copy, PartialEq, Eq, Structural)]
pub enum EnqueueStep {
    /// The lease is in its queue, or lost because the queue is closed.
    Done,
    /// Wait for room in the queue. Backpressure is announced first, if `announce` says so.
    Wait { announce: bool },
}

/// Puts leases into queues, and announces backpressure while it waits for room.
#[derive(Debug, Clone, Copy, PartialEq, Eq, Structural)]
pub struct Backpressure {
    pub active: bool,
}

impl Backpressure {
    pub fn new() -> (r: Backpressure)
        ensures
            !r.active,
    {
        Backpressure { active: false }
    }

    /// Takes the outcome of the attempt to put `item`, which is counted, into its queue.
    pub fn after_try_send<T>(
        &mut self,
        item: &mut DispatchedLease<T>,
        tracker: &mut QueueTracker,
        outcome: TrySend,
    ) -> (r: EnqueueStep)
        ensures
            final(item).content() == old(item).content(),
            final(item).since() == old(item).since(),
            match outcome {
                TrySend::Sent => {
                    &&& r == EnqueueStep::Done
                    &&& *final(self) == *old(self)
                    &&& *final(tracker) == *old(tracker)
                    &&& final(item).is_counted() == old(item).is_counted()
                },
                TrySend::Closed => {
                    &&& r == EnqueueStep::Done
                    &&& *final(self) == *old(self)
                    &&& !final(item).is_counted()
                    &&& final(tracker).depth == (if old(item).is_counted() {
                        shallower(old(tracker).depth)
                    } else {
                        old(tracker).depth
                    })
                },
                TrySend::Full => {
                    &&& r == (EnqueueStep::Wait { announce: !old(self).active })
                    &&& final(self).active
                    &&& final(item).is_counted()
                    &&& final(tracker).depth == deeper(
                        if old(item).is_counted() {
                            shallower(old(tracker).depth)
                        } else {
                            old(tracker).depth
                        },
                    )
                },
            },
            final(tracker).kind == old(tracker).kind,
    {
        match outcome {
            TrySend::Sent => EnqueueStep::Done,
            TrySend::Closed => {
                item.undo_enqueue(tracker);
                EnqueueStep::Done
            },
            TrySend::Full => {
                item.undo_enqueue(tracker);
                let announce: bool = !self.active;
                self.active = true;
                item.mark_enqueued(tracker);
                EnqueueStep::Wait { announce }
            },
        }
    }

    /// Takes the outcome of waiting for room: the queue took the lease, or it closed and gave
    /// the lease back. Returns whether the end of backpressure is to be announced.
    pub fn after_send<T>(
        &mut self,
        returned: Option<&mut DispatchedLease<T>>,
        tracker: &mut QueueTracker,
    ) -> (r: bool)
        ensures
            r == old(self).active,
            !final(self).active,
            final(tracker).kind == old(tracker).kind,
            match returned {
                None => *final(tracker) == *old(tracker),
                Some(item) => {
                    &&& !final(item).is_counted()
                    &&& final(item).content() == item.content()
                    &&& final(item).since() == item.since()
                    &&& final(tracker).depth == (if item.is_counted() {
                        shallower(old(tracker).depth)
                    } else {
                        old(tracker).depth
                    })
                },
            },
    {
        if let Some(item) = returned {
            item.undo_enqueue(tracker);
        }
        let announce: bool = self.active;
        self.active = false;
        announce
    }

    /// Ends the dispatcher. Returns whether the end of backpressure is to be announced.
    pub fn shut_down(&mut self) -> (r: bool)
        ensures
            r == old(self).active,
            !final(self).active,
    {
        let announce: bool = self.active;
        self.active = false;
        announce
    }
}

/// Counting a lease and undoing it leaves the depth of the queue as it was.
pub proof fn law_undo_restores_depth(depth: usize)
    requires
        depth < usize::MAX,
    ensures
        shallower(deeper(depth)) == depth,
{
}

/// A queue gets deeper and shallower by one.
pub proof fn law_depth_counts_by_one(depth: usize)
    ensures
        depth < usize::MAX ==> deeper(depth) == depth + 1,
        depth > 0 ==> shallower(depth) == depth - 1,
        shallower(0) == 0,
{
}

} // verus!
