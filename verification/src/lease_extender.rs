//! Leases under execution: when they expire, and which of them are cancelled.

use std::collections::HashMap;

use vstd::prelude::*;
use vstd::std_specs::hash::*;
use vstd::std_specs::iter::IteratorSpec;

use crate::control_plane::{after_millis, deadline, ExtendOutcome, Lease};

verus! {

broadcast use vstd::std_specs::hash::group_hash_axioms;

/// How often leases are extended, and by how much, in nanoseconds.
#[derive(Debug, Clone, Copy, PartialEq, Eq, Structural)]
pub struct LeaseExtenderConfig {
    pub extend_every: u128,
    pub extend_by: u128,
}

/// Why a command did not reach the lease extender.
#[derive(Debug, Clone, Copy, PartialEq, Eq, Structural)]
pub enum LeaseExtenderError {
    Closed,
}

impl LeaseExtenderError {
    /// The message shown to users.
    pub fn message(&self) -> (r: &'static str)
        ensures
            r@ == "lease extender has shut down"@,
    {
        "lease extender has shut down"
    }
}

/// What came of an extension: new deadlines, and tasks that were revoked.
#[derive(Debug)]
pub struct LeaseExtendUpdate {
    pub outcomes: Vec<ExtendOutcome>,
    pub revoked: Vec<u64>,
}

/// A lease under execution, with the token by which it is cancelled.
pub struct LeaseEntry<T> {
    pub task_id: u64,
    /// Nanoseconds of the process clock.
    pub deadline: u128,
    pub token: T,
}

/// The leases under execution.
pub struct LeaseTable<T> {
    entries: HashMap<u64, LeaseEntry<T>>,
    task_index: HashMap<u64, u64>,
}

/// The contents of a [`LeaseTable`]: the leases by their ids, and for each task its lease.
pub struct LeaseTableView<T> {
    pub entries: Map<u64, LeaseEntry<T>>,
    pub index: Map<u64, u64>,
}

impl<T> View for LeaseTable<T> {
    type V = LeaseTableView<T>;

    closed spec fn view(&self) -> LeaseTableView<T> {
        LeaseTableView { entries: self.entries@, index: self.task_index@ }
    }
}

impl<T> LeaseTableView<T> {
    pub open spec fn empty() -> LeaseTableView<T> {
        LeaseTableView { entries: Map::empty(), index: Map::empty() }
    }

    /// Every lease is found by its task, and every task leads to its lease.
    pub open spec fn consistent(self) -> bool {
        &&& forall|id: u64| #[trigger]
            self.entries.contains_key(id) ==> self.index.contains_key(self.entries[id].task_id)
                && self.index[self.entries[id].task_id] == id
        &&& forall|task: u64| #[trigger]
            self.index.contains_key(task) ==> self.entries.contains_key(self.index[task])
                && self.entries[self.index[task]].task_id == task
    }

    pub open spec fn with_lease(self, id: u64, entry: LeaseEntry<T>) -> LeaseTableView<T> {
        LeaseTableView {
            entries: self.entries.insert(id, entry),
            index: self.index.insert(entry.task_id, id),
        }
    }

    /// The table without the lease `id`.
    pub open spec fn without(self, id: u64) -> LeaseTableView<T> {
        if self.entries.contains_key(id) {
            LeaseTableView {
                entries: self.entries.remove(id),
                index: self.index.remove(self.entries[id].task_id),
            }
        } else {
            self
        }
    }

    /// The lease `id` has no time left at `now`.
    pub open spec fn expired(self, id: u64, now: u64) -> bool {
        self.entries.contains_key(id) && self.entries[id].deadline <= now
    }

    /// The table without the leases `ids`, taken away in this order.
    pub open spec fn without_all(self, ids: Seq<u64>) -> LeaseTableView<T>
        decreases ids.len(),
    {
        if ids.len() == 0 {
            self
        } else {
            self.without_all(ids.drop_last()).without(ids.last())
        }
    }

    /// The table with the new deadlines. Leases that are not tracked stay untracked.
    pub open spec fn extended(self, outcomes: Seq<ExtendOutcome>, now: u64) -> LeaseTableView<T>
        decreases outcomes.len(),
    {
        if outcomes.len() == 0 {
            self
        } else {
            let before = self.extended(outcomes.drop_last(), now);
            let last = outcomes.last();
            if before.entries.contains_key(last.lease_id) {
                LeaseTableView {
                    entries: before.entries.insert(
                        last.lease_id,
                        LeaseEntry {
                            deadline: after_millis(now, last.new_deadline_ms),
                            ..before.entries[last.lease_id]
                        },
                    ),
                    ..before
                }
            } else {
                before
            }
        }
    }

    /// The table after a task was revoked.
    pub open spec fn revoked_task(self, task: u64) -> LeaseTableView<T> {
        if self.index.contains_key(task) {
            LeaseTableView {
                entries: self.entries.remove(self.index[task]),
                index: self.index.remove(task),
            }
        } else {
            self
        }
    }

    /// The lease that is cancelled when a task is revoked.
    pub open spec fn lease_of(self, task: u64) -> Option<(u64, T)> {
        if self.index.contains_key(task) && self.entries.contains_key(self.index[task]) {
            Some((self.index[task], self.entries[self.index[task]].token))
        } else {
            None
        }
    }

    /// The table after the tasks were revoked in this order, and the leases that are cancelled.
    pub open spec fn revoked(self, tasks: Seq<u64>) -> (LeaseTableView<T>, Seq<(u64, T)>)
        decreases tasks.len(),
    {
        if tasks.len() == 0 {
            (self, Seq::empty())
        } else {
            let (before, cancelled) = self.revoked(tasks.drop_last());
            (
                before.revoked_task(tasks.last()),
                match before.lease_of(tasks.last()) {
                    Some(lease) => cancelled.push(lease),
                    None => cancelled,
                },
            )
        }
    }
}

/// The ids of cancelled leases.
pub open spec fn cancelled_ids<T>(list: Seq<(u64, T)>) -> Seq<u64> {
    list.map_values(|c: (u64, T)| c.0)
}

impl<T> LeaseTable<T> {
    pub fn new() -> (r: LeaseTable<T>)
        ensures
            r@ == LeaseTableView::<T>::empty(),
    {
        LeaseTable { entries: HashMap::new(), task_index: HashMap::new() }
    }

    pub fn is_empty(&self) -> (r: bool)
        ensures
            r == self@.entries.is_empty(),
    {
        self.entries.len() == 0
    }

    /// Tracks a lease that was claimed at `now`.
    pub fn track(&mut self, lease: &Lease, token: T, now: u64)
        ensures
            final(self)@ == old(self)@.with_lease(
                lease.lease_id,
                LeaseEntry {
                    task_id: lease.task_id,
                    deadline: after_millis(now, lease.lease_until_ms),
                    token,
                },
            ),
    {
        let entry: LeaseEntry<T> = LeaseEntry {
            task_id: lease.task_id,
            deadline: deadline(now, lease.lease_until_ms),
            token,
        };
        self.task_index.insert(lease.task_id, lease.lease_id);
        self.entries.insert(lease.lease_id, entry);
    }

    /// Takes a lease out of the table.
    fn take(&mut self, lease_id: u64) -> (r: Option<LeaseEntry<T>>)
        ensures
            final(self)@ == old(self)@.without(lease_id),
            r == (if old(self)@.entries.contains_key(lease_id) {
                Some(old(self)@.entries[lease_id])
            } else {
                None
            }),
    {
        match self.entries.remove(&lease_id) {
            Some(entry) => {
                self.task_index.remove(&entry.task_id);
                Some(entry)
            },
            None => {
                assert(self@.entries =~= old(self)@.entries);
                None
            },
        }
    }

    /// Stops tracking a lease whose execution ended.
    pub fn finish(&mut self, lease_id: u64)
        ensures
            final(self)@ == old(self)@.without(lease_id),
    {
        self.take(lease_id);
    }

    /// Stops tracking a lease, whose execution is to be cancelled by the token.
    pub fn revoke(&mut self, lease_id: u64) -> (r: Option<T>)
        ensures
            final(self)@ == old(self)@.without(lease_id),
            r == (if old(self)@.entries.contains_key(lease_id) {
                Some(old(self)@.entries[lease_id].token)
            } else {
                None
            }),
    {
        match self.take(lease_id) {
            Some(entry) => Some(entry.token),
            None => None,
        }
    }

    /// The ids of all leases, in no particular order.
    pub fn lease_ids(&self) -> (r: Vec<u64>)
        ensures
            r@.no_duplicates(),
            r@.to_set() == self@.entries.dom(),
    {
        let mut ids: Vec<u64> = Vec::new();
        let ghost keys = spec_keys_iter(&self.entries).remaining();
        for id in iter: self.entries.keys()
            invariant
                keys == spec_keys_iter(&self.entries).remaining(),
                iter.seq() == keys,
                ids@.len() == iter.index(),
                forall|i: int| 0 <= i < iter.index() ==> ids@[i] == *keys[i],
        {
            ids.push(*id);
        }
        assert(ids@ =~= keys.unref());
        ids
    }

    fn extend(&mut self, outcomes: &Vec<ExtendOutcome>, now: u64)
        ensures
            final(self)@ == old(self)@.extended(outcomes@, now),
    {
        let ghost all = outcomes@;
        let mut i: usize = 0;
        while i < outcomes.len()
            invariant
                i <= outcomes.len(),
                all == outcomes@,
                self@ == old(self)@.extended(all.take(i as int), now),
            decreases outcomes.len() - i,
        {
            let outcome: ExtendOutcome = outcomes[i];
            let ghost before = self@;
            match self.entries.remove(&outcome.lease_id) {
                Some(entry) => {
                    let changed: LeaseEntry<T> = LeaseEntry {
                        task_id: entry.task_id,
                        deadline: deadline(now, outcome.new_deadline_ms),
                        token: entry.token,
                    };
                    self.entries.insert(outcome.lease_id, changed);
                    assert(self@.entries =~= before.entries.insert(outcome.lease_id, changed));
                },
                None => {
                    assert(self@.entries =~= before.entries);
                },
            }
            assert(all.take(i + 1).drop_last() =~= all.take(i as int));
            i = i + 1;
        }
        assert(all.take(i as int) =~= all);
    }

    /// Applies the outcome of an extension that came at `now`. Returns the leases whose
    /// execution is to be cancelled, because their tasks were revoked.
    pub fn apply_update(&mut self, update: &LeaseExtendUpdate, now: u64) -> (r: Vec<(u64, T)>)
        ensures
            (final(self)@, r@) == old(self)@.extended(update.outcomes@, now).revoked(
                update.revoked@,
            ),
    {
        self.extend(&update.outcomes, now);
        let ghost start = self@;
        let ghost all = update.revoked@;
        let mut cancelled: Vec<(u64, T)> = Vec::new();
        let mut i: usize = 0;
        assert(all.take(0) =~= Seq::empty());
        while i < update.revoked.len()
            invariant
                i <= update.revoked.len(),
                all == update.revoked@,
                (self@, cancelled@) == start.revoked(all.take(i as int)),
            decreases update.revoked.len() - i,
        {
            let task: u64 = update.revoked[i];
            let ghost before = self@;
            match self.task_index.remove(&task) {
                Some(lease_id) => {
                    match self.entries.remove(&lease_id) {
                        Some(entry) => {
                            cancelled.push((lease_id, entry.token));
                        },
                        None => {},
                    }
                },
                None => {
                    assert(self@.index =~= before.index);
                },
            }
            assert(all.take(i + 1).drop_last() =~= all.take(i as int));
            i = i + 1;
        }
        assert(all.take(i as int) =~= all);
        cancelled
    }

    /// Takes the leases `ids` out of the table.
    fn take_all(&mut self, ids: &Vec<u64>) -> (r: Vec<(u64, T)>)
        requires
            ids@.no_duplicates(),
            forall|i: int| 0 <= i < ids@.len() ==> #[trigger] old(self)@.entries.contains_key(ids@[i]),
        ensures
            final(self)@ == old(self)@.without_all(ids@),
            cancelled_ids(r@) == ids@,
            forall|i: int|
                0 <= i < ids@.len() ==> (#[trigger] r@[i]).1 == old(self)@.entries[ids@[i]].token,
    {
        let ghost start = self@;
        let mut taken: Vec<(u64, T)> = Vec::new();
        let mut i: usize = 0;
        while i < ids.len()
            invariant
                i <= ids.len(),
                start == old(self)@,
                ids@.no_duplicates(),
                forall|k: int| 0 <= k < ids@.len() ==> #[trigger] start.entries.contains_key(ids@[k]),
                self@ == start.without_all(ids@.take(i as int)),
                forall|k: int|
                    i <= k < ids@.len() ==> #[trigger] self@.entries.contains_key(ids@[k])
                        && self@.entries[ids@[k]] == start.entries[ids@[k]],
                taken@.len() == i,
                forall|k: int|
                    0 <= k < i ==> (#[trigger] taken@[k]).0 == ids@[k] && taken@[k].1
                        == start.entries[ids@[k]].token,
            decreases ids.len() - i,
        {
            let id: u64 = ids[i];
            assert(self@.entries.contains_key(ids@[i as int]));
            if let Some(entry) = self.take(id) {
                taken.push((id, entry.token));
            }
            assert(ids@.take(i + 1).drop_last() =~= ids@.take(i as int));
            i = i + 1;
        }
        assert(ids@.take(i as int) =~= ids@);
        assert(cancelled_ids(taken@) =~= ids@);
        taken
    }

    /// Stops tracking the leases that have no time left at `now`. Returns them, for their
    /// execution is to be cancelled.
    pub fn cancel_expired(&mut self, now: u64) -> (r: Vec<(u64, T)>)
        ensures
            cancelled_ids(r@).no_duplicates(),
            forall|id: u64| cancelled_ids(r@).contains(id) <==> old(self)@.expired(id, now),
            final(self)@ == old(self)@.without_all(cancelled_ids(r@)),
            forall|i: int|
                0 <= i < r@.len() ==> (#[trigger] r@[i]).1 == old(self)@.entries[r@[i].0].token,
    {
        let ids: Vec<u64> = self.lease_ids();
        let ghost start = self@;
        let mut expired: Vec<u64> = Vec::new();
        let mut i: usize = 0;
        assert forall|k: int| 0 <= k < ids@.len() implies #[trigger] start.entries.contains_key(
            ids@[k],
        ) by {
            assert(ids@.to_set().contains(ids@[k]));
        }
        while i < ids.len()
            invariant
                i <= ids.len(),
                self@ == start,
                ids@.no_duplicates(),
                forall|k: int| 0 <= k < ids@.len() ==> #[trigger] start.entries.contains_key(ids@[k]),
                expired@.no_duplicates(),
                forall|k: int|
                    0 <= k < expired@.len() ==> start.expired(#[trigger] expired@[k], now)
                        && ids@.take(i as int).contains(expired@[k]),
                forall|k: int|
                    0 <= k < i && start.expired(#[trigger] ids@[k], now) ==> expired@.contains(
                        ids@[k],
                    ),
            decreases ids.len() - i,
        {
            let id: u64 = ids[i];
            assert(start.entries.contains_key(ids@[i as int]));
            let ghost before = expired@;
            if let Some(entry) = self.entries.get(&id) {
                if entry.deadline <= now as u128 {
                    proof {
                        if before.contains(id) {
                            let k = choose|k: int| 0 <= k < before.len() && before[k] == id;
                            assert(ids@.take(i as int).contains(before[k]));
                            let j = choose|j: int|
                                0 <= j < ids@.take(i as int).len() && ids@.take(i as int)[j] == id;
                            assert(ids@[j] == ids@[i as int]);
                        }
                    }
                    expired.push(id);
                }
            }
            proof {
                assert forall|k: int| 0 <= k < expired@.len() implies ids@.take(i + 1).contains(
                    #[trigger] expired@[k],
                ) by {
                    if k < before.len() {
                        assert(ids@.take(i as int).contains(before[k]));
                        let j = choose|j: int|
                            0 <= j < ids@.take(i as int).len() && ids@.take(i as int)[j]
                                == before[k];
                        assert(ids@.take(i + 1)[j] == before[k]);
                    } else {
                        assert(ids@.take(i + 1)[i as int] == id);
                    }
                }
                assert forall|k: int|
                    0 <= k < i + 1 && start.expired(#[trigger] ids@[k], now) implies expired@.contains(
                    ids@[k],
                ) by {
                    if k < i {
                        assert(before.contains(ids@[k]));
                        let j = choose|j: int| 0 <= j < before.len() && before[j] == ids@[k];
                        assert(expired@[j] == ids@[k]);
                    } else {
                        assert(expired@[before.len() as int] == id);
                    }
                }
            }
            i = i + 1;
        }
        proof {
            assert forall|id: u64| expired@.contains(id) <==> start.expired(id, now) by {
                if start.expired(id, now) {
                    assert(ids@.to_set().contains(id));
                    let k = choose|k: int| 0 <= k < ids@.len() && ids@[k] == id;
                    assert(start.expired(ids@[k], now));
                }
            }
            assert forall|k: int| 0 <= k < expired@.len() implies #[trigger] start.entries.contains_key(
                expired@[k],
            ) by {
                assert(start.expired(expired@[k], now));
            }
        }
        let taken: Vec<(u64, T)> = self.take_all(&expired);
        proof {
            assert forall|k: int| 0 <= k < taken@.len() implies (#[trigger] taken@[k]).1
                == start.entries[taken@[k].0].token by {
                assert(cancelled_ids(taken@)[k] == taken@[k].0);
                assert(expired@[k] == taken@[k].0);
            }
        }
        taken
    }

    /// Ends the tracking of all leases. Returns them, for their execution is to be cancelled.
    pub fn shut_down(&mut self) -> (r: Vec<(u64, T)>)
        ensures
            final(self)@ == LeaseTableView::<T>::empty(),
            cancelled_ids(r@).no_duplicates(),
            cancelled_ids(r@).to_set() == old(self)@.entries.dom(),
            forall|i: int|
                0 <= i < r@.len() ==> (#[trigger] r@[i]).1 == old(self)@.entries[r@[i].0].token,
    {
        let ids: Vec<u64> = self.lease_ids();
        let ghost start = self@;
        proof {
            assert forall|k: int| 0 <= k < ids@.len() implies #[trigger] start.entries.contains_key(
                ids@[k],
            ) by {
                assert(ids@.to_set().contains(ids@[k]));
            }
        }
        let taken: Vec<(u64, T)> = self.take_all(&ids);
        proof {
            assert forall|k: int| 0 <= k < taken@.len() implies (#[trigger] taken@[k]).1
                == start.entries[taken@[k].0].token by {
                assert(cancelled_ids(taken@)[k] == taken@[k].0);
                assert(ids@[k] == taken@[k].0);
            }
        }
        self.entries.clear();
        self.task_index.clear();
        taken
    }
}

/// What the lease extender is told.
pub enum LeaseCommand<T> {
    /// A lease was claimed and is about to be executed.
    Track { lease: Lease, token: T },
    /// The execution of a lease ended.
    Finish { lease_id: u64 },
    /// The execution of a lease is to be cancelled.
    Revoke { lease_id: u64 },
    Shutdown,
}

impl<T> LeaseTable<T> {
    /// Carries out a command at `now`, and then cancels the leases that have no time left.
    /// Returns the leases whose execution is to be cancelled, and whether the lease extender
    /// goes on.
    pub fn carry_out(&mut self, command: LeaseCommand<T>, now: u64) -> (r: (Vec<(u64, T)>, bool))
        ensures
            match command {
                LeaseCommand::Shutdown => {
                    &&& !r.1
                    &&& final(self)@ == LeaseTableView::<T>::empty()
                    &&& cancelled_ids(r.0@).no_duplicates()
                    &&& cancelled_ids(r.0@).to_set() == old(self)@.entries.dom()
                    &&& forall|i: int|
                        0 <= i < r.0@.len() ==> (#[trigger] r.0@[i]).1
                            == old(self)@.entries[r.0@[i].0].token
                },
                _ => {
                    &&& r.1
                    &&& exists|middle: LeaseTableView<T>, first: Seq<(u64, T)>, expired: Seq<(u64, T)>|
                        {
                            &&& #[trigger] command_result(old(self)@, command, now, middle, first)
                            &&& #[trigger] expiry_result(middle, now, final(self)@, expired)
                            &&& r.0@ == first + expired
                        }
                },
            },
    {
        let ghost before = self@;
        let mut cancelled: Vec<(u64, T)> = Vec::new();
        match command {
            LeaseCommand::Track { lease, token } => {
                self.track(&lease, token, now);
            },
            LeaseCommand::Finish { lease_id } => {
                self.finish(lease_id);
            },
            LeaseCommand::Revoke { lease_id } => {
                if let Some(token) = self.revoke(lease_id) {
                    cancelled.push((lease_id, token));
                }
            },
            LeaseCommand::Shutdown => {
                let all: Vec<(u64, T)> = self.shut_down();
                return (all, false);
            },
        }
        let ghost middle = self@;
        let ghost first = cancelled@;
        assert(command_result(before, command, now, middle, first));
        let mut expired: Vec<(u64, T)> = self.cancel_expired(now);
        let ghost late = expired@;
        assert(expiry_result(middle, now, self@, late));
        cancelled.append(&mut expired);
        assert(cancelled@ == first + late);
        (cancelled, true)
    }
}

/// The table after a command that does not end the lease extender, and the leases that the
/// command cancels.
pub open spec fn command_result<T>(
    before: LeaseTableView<T>,
    command: LeaseCommand<T>,
    now: u64,
    after: LeaseTableView<T>,
    cancelled: Seq<(u64, T)>,
) -> bool {
    match command {
        LeaseCommand::Track { lease, token } => {
            &&& after == before.with_lease(
                lease.lease_id,
                LeaseEntry {
                    task_id: lease.task_id,
                    deadline: after_millis(now, lease.lease_until_ms),
                    token,
                },
            )
            &&& cancelled == Seq::<(u64, T)>::empty()
        },
        LeaseCommand::Finish { lease_id } => {
            &&& after == before.without(lease_id)
            &&& cancelled == Seq::<(u64, T)>::empty()
        },
        LeaseCommand::Revoke { lease_id } => {
            &&& after == before.without(lease_id)
            &&& cancelled == if before.entries.contains_key(lease_id) {
                seq![(lease_id, before.entries[lease_id].token)]
            } else {
                Seq::empty()
            }
        },
        LeaseCommand::Shutdown => false,
    }
}

/// The table after the leases without time left were cancelled, and those leases in some order.
pub open spec fn expiry_result<T>(
    before: LeaseTableView<T>,
    now: u64,
    after: LeaseTableView<T>,
    cancelled: Seq<(u64, T)>,
) -> bool {
    &&& cancelled_ids(cancelled).no_duplicates()
    &&& forall|id: u64| cancelled_ids(cancelled).contains(id) <==> before.expired(id, now)
    &&& after == before.without_all(cancelled_ids(cancelled))
    &&& forall|i: int|
        0 <= i < cancelled.len() ==> (#[trigger] cancelled[i]).1
            == before.entries[cancelled[i].0].token
}

/// A tracked lease gets the deadline of the last outcome that names it, and keeps its own if
/// none does.
pub proof fn law_extension_sets_deadlines<T>(
    table: LeaseTableView<T>,
    outcomes: Seq<ExtendOutcome>,
    now: u64,
    id: u64,
)
    requires
        table.entries.contains_key(id),
    ensures
        table.extended(outcomes, now).entries.contains_key(id),
        forall|i: int|
            0 <= i < outcomes.len() && (#[trigger] outcomes[i]).lease_id == id && (forall|k: int|
                i < k < outcomes.len() ==> (#[trigger] outcomes[k]).lease_id != id)
                ==> table.extended(outcomes, now).entries[id].deadline == now
                + outcomes[i].new_deadline_ms * 1_000_000,
        (forall|k: int| 0 <= k < outcomes.len() ==> (#[trigger] outcomes[k]).lease_id != id)
            ==> table.extended(outcomes, now).entries[id].deadline == table.entries[id].deadline,
    decreases outcomes.len(),
{
    if outcomes.len() > 0 {
        let init = outcomes.drop_last();
        let last = outcomes.last();
        law_extension_sets_deadlines(table, init, now, id);
        assert(forall|k: int| 0 <= k < init.len() ==> #[trigger] outcomes[k] == init[k]);
        assert(outcomes[outcomes.len() - 1] == last);
        if last.lease_id != id {
            assert forall|i: int|
                0 <= i < outcomes.len() && (#[trigger] outcomes[i]).lease_id == id && (forall|
                    k: int,
                |
                    i < k < outcomes.len() ==> (#[trigger] outcomes[k]).lease_id
                        != id) implies table.extended(outcomes, now).entries[id].deadline == now
                + outcomes[i].new_deadline_ms * 1_000_000 by {
                assert(init[i].lease_id == id);
                assert forall|k: int| i < k < init.len() implies (#[trigger] init[k]).lease_id
                    != id by {
                    assert(outcomes[k] == init[k]);
                }
            }
            if forall|k: int| 0 <= k < outcomes.len() ==> (#[trigger] outcomes[k]).lease_id != id {
                assert forall|k: int| 0 <= k < init.len() implies (#[trigger] init[k]).lease_id
                    != id by {
                    assert(outcomes[k] == init[k]);
                }
            }
        }
    }
}

/// Tracking another lease keeps the table consistent, if neither the lease nor its task is
/// tracked yet.
pub proof fn law_tracking_keeps_consistency<T>(
    table: LeaseTableView<T>,
    id: u64,
    entry: LeaseEntry<T>,
)
    requires
        table.consistent(),
        !table.entries.contains_key(id),
        !table.index.contains_key(entry.task_id),
    ensures
        table.with_lease(id, entry).consistent(),
{
    let after = table.with_lease(id, entry);
    assert forall|k: u64| #[trigger] after.entries.contains_key(k) implies after.index.contains_key(
        after.entries[k].task_id,
    ) && after.index[after.entries[k].task_id] == k by {
        if k != id {
            assert(table.entries.contains_key(k));
        }
    }
    assert forall|task: u64| #[trigger] after.index.contains_key(task) implies
        after.entries.contains_key(after.index[task]) && after.entries[after.index[task]].task_id
        == task by {
        if task != entry.task_id {
            assert(table.index.contains_key(task));
        }
    }
}

/// Finishing, revoking and expiring leases keeps the table consistent.
pub proof fn law_removal_keeps_consistency<T>(table: LeaseTableView<T>, ids: Seq<u64>)
    requires
        table.consistent(),
    ensures
        table.without_all(ids).consistent(),
    decreases ids.len(),
{
    if ids.len() > 0 {
        let before = table.without_all(ids.drop_last());
        law_removal_keeps_consistency(table, ids.drop_last());
        let after = before.without(ids.last());
        assert forall|k: u64| #[trigger] after.entries.contains_key(k) implies
            after.index.contains_key(after.entries[k].task_id)
            && after.index[after.entries[k].task_id] == k by {
            assert(before.entries.contains_key(k));
        }
        assert forall|task: u64| #[trigger] after.index.contains_key(task) implies
            after.entries.contains_key(after.index[task])
            && after.entries[after.index[task]].task_id == task by {
            assert(before.index.contains_key(task));
        }
    }
}

/// Revoking tasks keeps the table consistent.
pub proof fn law_revoking_keeps_consistency<T>(table: LeaseTableView<T>, tasks: Seq<u64>)
    requires
        table.consistent(),
    ensures
        table.revoked(tasks).0.consistent(),
    decreases tasks.len(),
{
    if tasks.len() > 0 {
        let before = table.revoked(tasks.drop_last()).0;
        law_revoking_keeps_consistency(table, tasks.drop_last());
        let after = before.revoked_task(tasks.last());
        assert forall|k: u64| #[trigger] after.entries.contains_key(k) implies
            after.index.contains_key(after.entries[k].task_id)
            && after.index[after.entries[k].task_id] == k by {
            assert(before.entries.contains_key(k));
        }
        assert forall|task: u64| #[trigger] after.index.contains_key(task) implies
            after.entries.contains_key(after.index[task])
            && after.entries[after.index[task]].task_id == task by {
            assert(before.index.contains_key(task));
            if before.index.contains_key(tasks.last()) {
                assert(before.entries.contains_key(before.index[task]));
            }
        }
    }
}

/// New deadlines neither add nor remove a lease, nor change its task.
pub proof fn law_extension_keeps_leases<T>(
    table: LeaseTableView<T>,
    outcomes: Seq<ExtendOutcome>,
    now: u64,
)
    ensures
        table.extended(outcomes, now).index == table.index,
        table.extended(outcomes, now).entries.dom() == table.entries.dom(),
        forall|id: u64| #[trigger]
            table.entries.contains_key(id) ==> table.extended(outcomes, now).entries[id].task_id
                == table.entries[id].task_id && table.extended(outcomes, now).entries[id].token
                == table.entries[id].token,
    decreases outcomes.len(),
{
    if outcomes.len() > 0 {
        law_extension_keeps_leases(table, outcomes.drop_last(), now);
        assert(table.extended(outcomes, now).entries.dom() =~= table.entries.dom());
    }
}

/// Once expired leases were cancelled, every lease that is left has time.
pub proof fn law_no_expired_lease_is_left<T>(
    table: LeaseTableView<T>,
    ids: Seq<u64>,
    now: u64,
    id: u64,
)
    requires
        forall|k: u64| ids.contains(k) <==> table.expired(k, now),
    ensures
        !table.without_all(ids).expired(id, now),
        table.entries.contains_key(id) && !table.expired(id, now) ==> table.without_all(
            ids,
        ).entries.contains_key(id),
{
    lemma_without_all(table, ids, id);
}

proof fn lemma_without_all<T>(table: LeaseTableView<T>, ids: Seq<u64>, id: u64)
    ensures
        table.without_all(ids).entries.contains_key(id) <==> table.entries.contains_key(id)
            && !ids.contains(id),
        table.without_all(ids).entries.contains_key(id) ==> table.without_all(ids).entries[id]
            == table.entries[id],
    decreases ids.len(),
{
    if ids.len() > 0 {
        let init = ids.drop_last();
        lemma_without_all(table, init, id);
        assert(ids =~= init.push(ids.last()));
        if init.contains(id) {
            let k = choose|k: int| 0 <= k < init.len() && init[k] == id;
            assert(ids[k] == id);
        }
        if ids.contains(id) && !init.contains(id) {
            let k = choose|k: int| 0 <= k < ids.len() && ids[k] == id;
            assert(k == ids.len() - 1) by {
                if k < init.len() {
                    assert(init[k] == id);
                }
            }
        }
        if ids.last() == id {
            assert(ids[ids.len() - 1] == id);
        }
    }
}

/// A tracked lease is in the table with its task, its deadline and its token, and found by its
/// task. No other lease changes.
pub proof fn law_tracked_lease_is_found<T>(
    before: LeaseTableView<T>,
    lease: Lease,
    token: T,
    now: u64,
    after: LeaseTableView<T>,
    cancelled: Seq<(u64, T)>,
    other: u64,
)
    requires
        command_result(before, LeaseCommand::Track { lease, token }, now, after, cancelled),
    ensures
        after.entries.contains_key(lease.lease_id),
        after.entries[lease.lease_id].task_id == lease.task_id,
        after.entries[lease.lease_id].deadline == now + lease.lease_until_ms * 1_000_000,
        after.entries[lease.lease_id].token == token,
        after.index.contains_key(lease.task_id) && after.index[lease.task_id] == lease.lease_id,
        other != lease.lease_id ==> (after.entries.contains_key(other)
            <==> before.entries.contains_key(other)) && after.entries[other]
            == before.entries[other],
        cancelled.len() == 0,
{
}

/// Finishing or revoking a lease takes it and its task out of the table, and nothing else. A
/// revoked lease is cancelled by its own token; a finished one is not cancelled.
pub proof fn law_ended_lease_is_gone<T>(
    before: LeaseTableView<T>,
    id: u64,
    revoke: bool,
    now: u64,
    after: LeaseTableView<T>,
    cancelled: Seq<(u64, T)>,
    other: u64,
)
    requires
        command_result(
            before,
            if revoke {
                LeaseCommand::Revoke { lease_id: id }
            } else {
                LeaseCommand::Finish { lease_id: id }
            },
            now,
            after,
            cancelled,
        ),
    ensures
        !after.entries.contains_key(id),
        before.entries.contains_key(id) ==> !after.index.contains_key(before.entries[id].task_id),
        other != id ==> (after.entries.contains_key(other) <==> before.entries.contains_key(other))
            && after.entries[other] == before.entries[other],
        revoke && before.entries.contains_key(id) ==> cancelled.len() == 1 && cancelled[0].0 == id
            && cancelled[0].1 == before.entries[id].token,
        !revoke || !before.entries.contains_key(id) ==> cancelled.len() == 0,
{
}

/// Revoking tasks takes out exactly the leases of these tasks, each cancelled once and by its own
/// token.
pub proof fn law_revoked_tasks_are_cancelled<T>(
    table: LeaseTableView<T>,
    tasks: Seq<u64>,
    id: u64,
)
    requires
        table.consistent(),
    ensures
        ({
            let (after, cancelled) = table.revoked(tasks);
            let named = table.entries.contains_key(id) && tasks.contains(table.entries[id].task_id);
            &&& after.entries.contains_key(id) <==> table.entries.contains_key(id) && !named
            &&& after.entries.contains_key(id) ==> after.entries[id] == table.entries[id]
            &&& named ==> cancelled.contains((id, table.entries[id].token))
            &&& forall|i: int|
                0 <= i < cancelled.len() && (#[trigger] cancelled[i]).0 == id ==> named
                    && cancelled[i].1 == table.entries[id].token
            &&& forall|i: int, j: int|
                #![trigger cancelled[i], cancelled[j]]
                0 <= i < j < cancelled.len() && cancelled[i].0 == id ==> cancelled[j].0 != id
        }),
    decreases tasks.len(),
{
    if tasks.len() > 0 {
        let init = tasks.drop_last();
        let t = tasks.last();
        let (before, earlier) = table.revoked(init);
        let (after, cancelled) = table.revoked(tasks);
        law_revoked_tasks_are_cancelled(table, init, id);
        law_revoking_keeps_consistency(table, init);
        assert(tasks =~= init.push(t));
        assert(tasks[tasks.len() - 1] == t);
        assert forall|x: u64| init.contains(x) implies #[trigger] tasks.contains(x) by {
            let k = choose|k: int| 0 <= k < init.len() && init[k] == x;
            assert(tasks[k] == x);
        }
        assert forall|x: u64| #[trigger] tasks.contains(x) && x != t implies init.contains(x) by {
            let k = choose|k: int| 0 <= k < tasks.len() && tasks[k] == x;
            assert(init[k] == x);
        }
        if before.lease_of(t) is Some {
            let lease = before.lease_of(t)->0;
            assert(cancelled == earlier.push(lease));
            assert(cancelled[earlier.len() as int] == lease);
            assert(forall|i: int| 0 <= i < earlier.len() ==> cancelled[i] == #[trigger] earlier[i]);
            if earlier.contains((id, table.entries[id].token)) {
                let k = choose|k: int|
                    0 <= k < earlier.len() && earlier[k] == (id, table.entries[id].token);
                assert(cancelled[k] == (id, table.entries[id].token));
            }
        } else {
            assert(cancelled == earlier);
        }
    }
}

/// What expires is exactly what is past its deadline. All else stays as it is.
pub proof fn law_expiry_takes_what_is_overdue<T>(
    before: LeaseTableView<T>,
    now: u64,
    after: LeaseTableView<T>,
    cancelled: Seq<(u64, T)>,
    id: u64,
)
    requires
        expiry_result(before, now, after, cancelled),
        before.entries.contains_key(id),
    ensures
        before.entries[id].deadline <= now ==> !after.entries.contains_key(id)
            && cancelled.contains((id, before.entries[id].token)),
        before.entries[id].deadline > now ==> after.entries.contains_key(id) && after.entries[id]
            == before.entries[id] && forall|i: int|
            0 <= i < cancelled.len() ==> (#[trigger] cancelled[i]).0 != id,
{
    let ids = cancelled_ids(cancelled);
    lemma_without_all(before, ids, id);
    if before.expired(id, now) {
        assert(ids.contains(id));
        let k = choose|k: int| 0 <= k < ids.len() && ids[k] == id;
        assert(cancelled[k].0 == id);
        assert(cancelled[k] == (id, before.entries[id].token));
    } else {
        assert forall|i: int| 0 <= i < cancelled.len() implies (#[trigger] cancelled[i]).0 != id by {
            assert(ids[i] == cancelled[i].0);
            assert(ids.contains(cancelled[i].0));
        }
    }
}

/// An extension leaves the task and the token of every lease as they are.
pub proof fn law_extension_keeps_entries<T>(
    table: LeaseTableView<T>,
    outcomes: Seq<ExtendOutcome>,
    now: u64,
    id: u64,
)
    ensures
        table.extended(outcomes, now).entries.contains_key(id) <==> table.entries.contains_key(id),
        table.extended(outcomes, now).entries[id].task_id == table.entries[id].task_id,
        table.extended(outcomes, now).entries[id].token == table.entries[id].token,
        table.extended(outcomes, now).index == table.index,
    decreases outcomes.len(),
{
    if outcomes.len() > 0 {
        law_extension_keeps_entries(table, outcomes.drop_last(), now, id);
    }
}

} // verus!
