//! Timers that fire in the order of their deadlines.

use vstd::prelude::*;

verus! {

/// A queue longer than this is worth a warning.
pub const QUEUE_WARN_DEPTH: usize = 1024;

/// A timer that fires this many nanoseconds late is worth a warning.
pub const LAG_WARN_NANOS: u128 = 200_000_000;

/// Why a timer could not be scheduled.
#[derive(Debug, Clone, Copy, PartialEq, Eq, Structural)]
pub enum TimerError {
    Closed,
}

impl TimerError {
    /// The message shown to users.
    pub fn message(&self) -> (r: &'static str)
        ensures
            r@ == "timer service has been shut down"@,
    {
        "timer service has been shut down"
    }
}

/// A task that is due at a time, in nanoseconds of the process clock.
pub struct ScheduledTimer<T> {
    pub when: u128,
    pub id: u64,
    pub task: T,
}

impl<T> ScheduledTimer<T> {
    /// The timer fires before `other`: it is due earlier, or was scheduled earlier for the
    /// same time.
    pub open spec fn precedes(&self, other: &ScheduledTimer<T>) -> bool {
        self.when < other.when || (self.when == other.when && self.id < other.id)
    }

    fn is_before(&self, other: &ScheduledTimer<T>) -> (r: bool)
        ensures
            r == self.precedes(other),
    {
        self.when < other.when || (self.when == other.when && self.id < other.id)
    }
}

/// Every timer fires before those behind it.
pub open spec fn in_order<T>(queue: Seq<ScheduledTimer<T>>) -> bool {
    forall|i: int, j: int|
        0 <= i < j < queue.len() ==> (#[trigger] queue[i]).precedes(#[trigger] &queue[j])
}

/// Where `timer` belongs in the queue: before the first timer that fires after it.
pub open spec fn place<T>(queue: Seq<ScheduledTimer<T>>, timer: ScheduledTimer<T>) -> int
    decreases queue.len(),
{
    if queue.len() == 0 || timer.precedes(&queue[0]) {
        0
    } else {
        1 + place(queue.skip(1), timer)
    }
}

/// How many timers at the front of the queue are due at `now`.
pub open spec fn due<T>(queue: Seq<ScheduledTimer<T>>, now: u128) -> int
    decreases queue.len(),
{
    if queue.len() == 0 || queue[0].when > now {
        0
    } else {
        1 + due(queue.skip(1), now)
    }
}

proof fn lemma_place<T>(queue: Seq<ScheduledTimer<T>>, timer: ScheduledTimer<T>)
    ensures
        0 <= place(queue, timer) <= queue.len(),
        forall|i: int| 0 <= i < place(queue, timer) ==> !timer.precedes(#[trigger] &queue[i]),
        place(queue, timer) < queue.len() ==> timer.precedes(&queue[place(queue, timer)]),
    decreases queue.len(),
{
    if queue.len() == 0 || timer.precedes(&queue[0]) {
    } else {
        let rest = queue.skip(1);
        lemma_place(rest, timer);
        assert forall|i: int| 0 <= i < place(queue, timer) implies !timer.precedes(
            #[trigger] &queue[i],
        ) by {
            if i > 0 {
                assert(!timer.precedes(&rest[i - 1]));
            }
        }
    }
}

proof fn lemma_due<T>(queue: Seq<ScheduledTimer<T>>, now: u128)
    ensures
        0 <= due(queue, now) <= queue.len(),
        forall|i: int| 0 <= i < due(queue, now) ==> (#[trigger] queue[i]).when <= now,
        due(queue, now) < queue.len() ==> queue[due(queue, now)].when > now,
    decreases queue.len(),
{
    if queue.len() == 0 || queue[0].when > now {
    } else {
        let rest = queue.skip(1);
        lemma_due(rest, now);
        assert forall|i: int| 0 <= i < due(queue, now) implies (#[trigger] queue[i]).when <= now by {
            if i > 0 {
                assert(rest[i - 1].when <= now);
            }
        }
    }
}

/// The timers that have not fired yet.
pub struct TimerQueue<T> {
    timers: Vec<ScheduledTimer<T>>,
    next_id: u64,
}

impl<T> TimerQueue<T> {
    pub closed spec fn queue(&self) -> Seq<ScheduledTimer<T>> {
        self.timers@
    }

    pub closed spec fn next(&self) -> u64 {
        self.next_id
    }

    /// The timers are in order, and their numbers are used up.
    pub open spec fn wf(&self) -> bool {
        &&& in_order(self.queue())
        &&& forall|i: int| 0 <= i < self.queue().len() ==> (#[trigger] self.queue()[i]).id < self.next()
    }

    pub fn new() -> (r: TimerQueue<T>)
        ensures
            r.queue() == Seq::<ScheduledTimer<T>>::empty(),
            r.next() == 1,
            r.wf(),
    {
        TimerQueue { timers: Vec::new(), next_id: 1 }
    }

    pub fn len(&self) -> (r: usize)
        ensures
            r == self.queue().len(),
    {
        self.timers.len()
    }

    /// Whether all numbers of timers are used up.
    pub fn is_exhausted(&self) -> (r: bool)
        ensures
            r == (self.next() == u64::MAX),
    {
        self.next_id == u64::MAX
    }

    /// Schedules a task for a time.
    pub fn schedule_at(&mut self, when: u128, task: T)
        requires
            old(self).wf(),
            old(self).next() < u64::MAX,
        ensures
            final(self).wf(),
            final(self).next() == old(self).next() + 1,
            ({
                let timer = ScheduledTimer { when, id: old(self).next(), task };
                final(self).queue() == old(self).queue().insert(
                    place(old(self).queue(), timer),
                    timer,
                )
            }),
    {
        let timer: ScheduledTimer<T> = ScheduledTimer { when, id: self.next_id, task };
        let ghost queue = self.timers@;
        let ghost at = place(queue, timer);
        proof {
            lemma_place(queue, timer);
        }
        let mut i: usize = 0;
        while i < self.timers.len() && !timer.is_before(&self.timers[i])
            invariant
                i <= self.timers.len(),
                self.timers@ == queue,
                self.next_id == old(self).next_id,
                timer.id == self.next_id,
                0 <= at <= queue.len(),
                at < queue.len() ==> timer.precedes(&queue[at]),
                i <= at,
            decreases self.timers.len() - i,
        {
            i = i + 1;
        }
        assert(i == at) by {
            if i < at {
                assert(!timer.precedes(&queue[i as int]));
            }
        }
        proof {
            assert forall|k: int| at <= k < queue.len() implies timer.precedes(#[trigger] &queue[k]) by {
                if k > at {
                    assert(queue[at].precedes(&queue[k]));
                }
            }
            assert forall|k: int| 0 <= k < at implies (#[trigger] queue[k]).precedes(&timer) by {
                assert(!timer.precedes(&queue[k]));
                assert(self.queue()[k].id < self.next());
            }
        }
        self.timers.insert(i, timer);
        self.next_id = self.next_id + 1;
        proof {
            let after = queue.insert(at, timer);
            assert(self.timers@ =~= after);
            assert forall|a: int, b: int| 0 <= a < b < after.len() implies (
            #[trigger] after[a]).precedes(#[trigger] &after[b]) by {
                if a < at && b == at {
                    assert(queue[a].precedes(&timer));
                } else if a == at {
                    assert(timer.precedes(&queue[b - 1]));
                } else if a < at && b < at {
                    assert(queue[a].precedes(&queue[b]));
                } else if a < at {
                    assert(queue[a].precedes(&queue[b - 1]));
                } else {
                    assert(queue[a - 1].precedes(&queue[b - 1]));
                }
            }
            assert forall|k: int| 0 <= k < after.len() implies (#[trigger] after[k]).id
                < self.next_id by {
                if k < at {
                    assert(old(self).queue()[k].id < old(self).next());
                } else if k > at {
                    assert(old(self).queue()[k - 1].id < old(self).next());
                }
            }
        }
    }

    /// When the next timer is due.
    pub fn next_deadline(&self) -> (r: Option<u128>)
        ensures
            r == (if self.queue().len() == 0 {
                None
            } else {
                Some(self.queue()[0].when)
            }),
    {
        if self.timers.len() == 0 {
            None
        } else {
            Some(self.timers[0].when)
        }
    }

    /// Takes the timers that are due at `now` out of the queue, in the order in which they fire.
    pub fn fire_due(&mut self, now: u128) -> (r: Vec<ScheduledTimer<T>>)
        requires
            old(self).wf(),
        ensures
            final(self).wf(),
            final(self).next() == old(self).next(),
            r@ == old(self).queue().take(due(old(self).queue(), now)),
            final(self).queue() == old(self).queue().skip(due(old(self).queue(), now)),
    {
        let ghost queue = self.timers@;
        let ghost count = due(queue, now);
        proof {
            lemma_due(queue, now);
        }
        let mut fired: Vec<ScheduledTimer<T>> = Vec::new();
        assert(queue.take(0) =~= fired@);
        assert(queue.skip(0) =~= queue);
        while self.timers.len() > 0 && self.timers[0].when <= now
            invariant
                fired@.len() <= count,
                0 <= count <= queue.len(),
                fired@ == queue.take(fired@.len() as int),
                self.timers@ == queue.skip(fired@.len() as int),
                self.next_id == old(self).next_id,
                count < queue.len() ==> queue[count].when > now,
                forall|i: int| 0 <= i < count ==> (#[trigger] queue[i]).when <= now,
            decreases self.timers.len(),
        {
            let ghost n = fired@.len() as int;
            assert(self.timers@[0] == queue[n]);
            let timer: ScheduledTimer<T> = self.timers.remove(0);
            fired.push(timer);
            assert(fired@ =~= queue.take(n + 1));
            assert(self.timers@ =~= queue.skip(n + 1));
        }
        proof {
            let n = fired@.len() as int;
            assert(n == count) by {
                if n < count {
                    assert(self.timers@[0] == queue[n]);
                }
            }
            let rest = queue.skip(count);
            assert forall|a: int, b: int| 0 <= a < b < rest.len() implies (
            #[trigger] rest[a]).precedes(#[trigger] &rest[b]) by {
                assert(queue[a + count].precedes(&queue[b + count]));
            }
            assert forall|k: int| 0 <= k < rest.len() implies (#[trigger] rest[k]).id
                < self.next_id by {
                assert(old(self).queue()[k + count].id < old(self).next());
            }
        }
        fired
    }

    /// Takes all timers out of the queue, in the order in which they would have fired.
    pub fn drain(&mut self) -> (r: Vec<ScheduledTimer<T>>)
        ensures
            final(self).wf(),
            final(self).next() == old(self).next(),
            r@ == old(self).queue(),
            final(self).queue() == Seq::<ScheduledTimer<T>>::empty(),
    {
        let mut rest: Vec<ScheduledTimer<T>> = Vec::new();
        core::mem::swap(&mut self.timers, &mut rest);
        rest
    }
}

/// Whether a timer that was due at `when` fires so late at `now` that it is worth a warning.
pub fn lag_is_excessive(now: u128, when: u128) -> (r: bool)
    ensures
        r == (now > when + LAG_WARN_NANOS),
{
    now.saturating_sub(when) > LAG_WARN_NANOS
}

/// Whether a queue is so long that it is worth a warning.
pub fn depth_is_excessive(depth: usize) -> (r: bool)
    ensures
        r == (depth > QUEUE_WARN_DEPTH),
{
    depth > QUEUE_WARN_DEPTH
}

/// No timer fires before its time, and none that is due stays behind.
pub proof fn law_exactly_due_timers_fire<T>(queue: Seq<ScheduledTimer<T>>, now: u128, i: int)
    requires
        in_order(queue),
        0 <= i < queue.len(),
    ensures
        i < due(queue, now) <==> queue[i].when <= now,
{
    lemma_due(queue, now);
    if i >= due(queue, now) {
        let k = due(queue, now);
        if i > k {
            assert(queue[k].precedes(&queue[i]));
        }
    }
}

/// Timers fire in the order of their times, and in the order of their scheduling where the
/// times are equal.
pub proof fn law_timers_fire_in_order<T>(
    queue: Seq<ScheduledTimer<T>>,
    now: u128,
    i: int,
    j: int,
)
    requires
        in_order(queue),
        0 <= i < j < due(queue, now),
    ensures
        queue.take(due(queue, now))[i].precedes(&queue.take(due(queue, now))[j]),
{
    lemma_due(queue, now);
    assert(queue[i].precedes(&queue[j]));
}

/// A scheduled timer takes its place in the queue, which then holds it and all that it held
/// before, in the same order.
pub proof fn law_scheduling_keeps_every_timer<T>(
    queue: Seq<ScheduledTimer<T>>,
    timer: ScheduledTimer<T>,
)
    ensures
        ({
            let k = place(queue, timer);
            let after = queue.insert(k, timer);
            &&& after.len() == queue.len() + 1
            &&& 0 <= k < after.len()
            &&& after[k] == timer
            &&& after.remove(k) == queue
            &&& forall|i: int| 0 <= i < k ==> #[trigger] after[i] == queue[i]
            &&& forall|i: int| k <= i < queue.len() ==> after[i + 1] == #[trigger] queue[i]
        }),
{
    lemma_place(queue, timer);
    let k = place(queue, timer);
    assert(queue.insert(k, timer).remove(k) =~= queue);
}

/// A timer is placed before those that come due later, and behind those that come due earlier or
/// were scheduled for the same time before it.
pub proof fn law_timer_waits_its_turn<T>(
    queue: Seq<ScheduledTimer<T>>,
    timer: ScheduledTimer<T>,
    i: int,
)
    requires
        in_order(queue),
        0 <= i < queue.len(),
        queue[i].id < timer.id,
    ensures
        queue[i].when <= timer.when ==> i < place(queue, timer),
        queue[i].when > timer.when ==> place(queue, timer) <= i,
{
    lemma_place(queue, timer);
    let k = place(queue, timer);
    if k <= i && queue[i].when <= timer.when {
        assert(timer.precedes(&queue[k]));
        if k < i {
            assert(queue[k].precedes(&queue[i]));
        }
    }
}

/// Timers fire by the time for which they were set, and those of one time in the order in which
/// they were scheduled.
pub proof fn law_timers_fire_by_time<T>(
    queue: Seq<ScheduledTimer<T>>,
    now: u128,
    i: int,
    j: int,
)
    requires
        in_order(queue),
        0 <= i < j < due(queue, now),
    ensures
        ({
            let fired = queue.take(due(queue, now));
            &&& fired[i].when <= fired[j].when <= now
            &&& fired[i].when == fired[j].when ==> fired[i].id < fired[j].id
        }),
{
    lemma_due(queue, now);
    law_timers_fire_in_order(queue, now, i, j);
}

} // verus!
