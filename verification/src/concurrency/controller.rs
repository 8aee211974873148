//! Admission of tasks under a global limit and limits per kind and per target.

use std::collections::HashMap;

use vstd::prelude::*;
use vstd::std_specs::hash::*;

use crate::concurrency::persistence::Scope;
use crate::concurrency::window::{
    exact, law_window_starts_full, lemma_fresh_wf, lemma_success, WindowState, ONE, PRECISION,
};
use crate::kinds::{KindMap, TaskKind};

verus! {

broadcast use vstd::std_specs::hash::group_hash_axioms;

/// The largest numbers of tasks that may run at once.
#[derive(Debug, Clone)]
pub struct ConcurrencyLimits {
    pub per_kind: KindMap<usize>,
    pub global: usize,
}

impl ConcurrencyLimits {
    /// The limit of a kind: the configured one, but at least one.
    pub open spec fn kind_limit(&self, kind: TaskKind) -> usize {
        if self.per_kind@.contains_key(kind) && self.per_kind@[kind] > 1 {
            self.per_kind@[kind]
        } else {
            1
        }
    }

    pub fn new(per_kind: KindMap<usize>, global: usize) -> (r: ConcurrencyLimits)
        ensures
            r.per_kind == per_kind,
            r.global == global,
    {
        ConcurrencyLimits { per_kind, global }
    }

    pub fn per_kind(&self, kind: TaskKind) -> (r: usize)
        ensures
            r == self.kind_limit(kind),
    {
        match self.per_kind.get(kind) {
            Some(limit) => if *limit > 1 {
                *limit
            } else {
                1
            },
            None => 1,
        }
    }
}

/// How a task ended.
#[derive(Debug, Clone, Copy, PartialEq, Eq, Structural)]
pub enum Outcome {
    Success,
    Timeout,
    Error,
}

/// How many tasks ended in which way. The counters start over after the largest number.
#[derive(Debug, Clone, Copy, PartialEq, Eq, Structural)]
pub struct OutcomeStats {
    pub successes: u64,
    pub timeouts: u64,
    pub errors: u64,
}

/// `n` plus one, starting over after the largest number.
pub open spec fn counted(n: u64) -> u64 {
    if n == u64::MAX {
        0
    } else {
        (n + 1) as u64
    }
}

impl OutcomeStats {
    pub open spec fn empty() -> OutcomeStats {
        OutcomeStats { successes: 0, timeouts: 0, errors: 0 }
    }

    pub open spec fn with(self, outcome: Outcome) -> OutcomeStats {
        match outcome {
            Outcome::Success => OutcomeStats { successes: counted(self.successes), ..self },
            Outcome::Timeout => OutcomeStats { timeouts: counted(self.timeouts), ..self },
            Outcome::Error => OutcomeStats { errors: counted(self.errors), ..self },
        }
    }

    fn count(&mut self, outcome: Outcome)
        ensures
            *final(self) == old(self).with(outcome),
    {
        match outcome {
            Outcome::Success => {
                self.successes = self.successes.wrapping_add(1);
            },
            Outcome::Timeout => {
                self.timeouts = self.timeouts.wrapping_add(1);
            },
            Outcome::Error => {
                self.errors = self.errors.wrapping_add(1);
            },
        }
    }
}

/// The window of a kind or of a target, the tasks that run under it, and how they ended.
#[derive(Debug, Clone, Copy, PartialEq, Eq, Structural)]
pub struct ScopeState {
    pub window: WindowState,
    pub inflight: usize,
    pub stats: OutcomeStats,
}

impl ScopeState {
    pub open spec fn wf(&self) -> bool {
        self.window.wf()
    }

    pub open spec fn fresh(max: usize) -> ScopeState {
        ScopeState { window: WindowState::fresh(max), inflight: 0, stats: OutcomeStats::empty() }
    }

    /// Whether another task may start.
    pub open spec fn has_room(&self) -> bool {
        self.inflight < self.window.limit_of()
    }

    pub open spec fn started(self) -> ScopeState {
        ScopeState { inflight: (self.inflight + 1) as usize, ..self }
    }

    pub open spec fn ended(self) -> ScopeState {
        ScopeState {
            inflight: if self.inflight > 0 {
                (self.inflight - 1) as usize
            } else {
                0
            },
            ..self
        }
    }

    /// The state after a task ended with `outcome`.
    pub open spec fn adjusted(self, outcome: Outcome) -> ScopeState {
        ScopeState {
            window: match outcome {
                Outcome::Success => self.window.increased(),
                Outcome::Timeout | Outcome::Error => self.window.decreased(),
            },
            stats: self.stats.with(outcome),
            ..self
        }
    }

    /// Whether a success makes room: the window becomes larger than its limit was.
    pub open spec fn grows(&self) -> bool {
        self.window.increased().current > (self.window.current / crate::concurrency::window::ONE)
            * crate::concurrency::window::ONE
    }

    pub open spec fn snapshot_of(&self) -> WindowSnapshot {
        WindowSnapshot { limit: self.window.limit_of(), inflight: self.inflight }
    }

    fn new(max: usize) -> (r: ScopeState)
        ensures
            r == ScopeState::fresh(max),
            r.wf(),
    {
        ScopeState {
            window: WindowState::new(max),
            inflight: 0,
            stats: OutcomeStats { successes: 0, timeouts: 0, errors: 0 },
        }
    }

    fn snapshot(&self) -> (r: WindowSnapshot)
        requires
            self.wf(),
        ensures
            r == self.snapshot_of(),
    {
        WindowSnapshot { limit: self.window.limit(), inflight: self.inflight }
    }

    fn adjust(&mut self, outcome: Outcome) -> (r: bool)
        requires
            old(self).wf(),
        ensures
            *final(self) == old(self).adjusted(outcome),
            final(self).wf(),
            r == (outcome == Outcome::Success && old(self).grows()),
    {
        self.stats.count(outcome);
        match outcome {
            Outcome::Success => self.window.increase(),
            Outcome::Timeout | Outcome::Error => {
                self.window.decrease();
                false
            },
        }
    }
}

/// The limit of a window and the number of tasks that run under it.
#[derive(Debug, Clone, Copy, PartialEq, Eq, Structural)]
pub struct WindowSnapshot {
    pub limit: usize,
    pub inflight: usize,
}

/// The windows after a task was admitted.
#[derive(Debug, Clone, Copy, PartialEq, Eq, Structural)]
pub struct AcquireSnapshot {
    pub global: WindowSnapshot,
    pub kind: WindowSnapshot,
    pub target: WindowSnapshot,
}

/// The windows after a task ended or its outcome was recorded, and whether those that wait
/// are to be woken.
#[derive(Debug, Clone, Copy, PartialEq, Eq, Structural)]
pub struct AdjustmentResult {
    pub notified: bool,
    pub global: WindowSnapshot,
    pub kind: Option<WindowSnapshot>,
    pub target: Option<WindowSnapshot>,
}

/// An admitted task.
#[derive(Debug, PartialEq, Eq, Structural)]
pub struct ConcurrencyPermit {
    kind: TaskKind,
    target: u64,
}

impl ConcurrencyPermit {
    pub closed spec fn kind_of(&self) -> TaskKind {
        self.kind
    }

    pub closed spec fn target_of(&self) -> u64 {
        self.target
    }

    pub fn kind(&self) -> (r: TaskKind)
        ensures
            r == self.kind_of(),
    {
        self.kind
    }

    pub fn target(&self) -> (r: u64)
        ensures
            r == self.target_of(),
    {
        self.target
    }
}

/// The contents of a [`ConcurrencyController`].
pub struct ControllerView {
    pub limits: spec_fn(TaskKind) -> usize,
    pub global: WindowState,
    pub kinds: Map<TaskKind, ScopeState>,
    pub targets: Map<(TaskKind, u64), ScopeState>,
}

impl ControllerView {
    /// The state of a kind: a fresh one if none was made yet.
    pub open spec fn kind_state(self, kind: TaskKind) -> ScopeState {
        if self.kinds.contains_key(kind) {
            self.kinds[kind]
        } else {
            ScopeState::fresh((self.limits)(kind))
        }
    }

    /// The state of a target: a fresh one if none was made yet.
    pub open spec fn target_state(self, kind: TaskKind, target: u64) -> ScopeState {
        if self.targets.contains_key((kind, target)) {
            self.targets[(kind, target)]
        } else {
            ScopeState::fresh((self.limits)(kind))
        }
    }

    pub open spec fn with_kind(self, kind: TaskKind, state: ScopeState) -> ControllerView {
        ControllerView { kinds: self.kinds.insert(kind, state), ..self }
    }

    pub open spec fn with_target(self, kind: TaskKind, target: u64, state: ScopeState) -> ControllerView {
        ControllerView { targets: self.targets.insert((kind, target), state), ..self }
    }

    pub open spec fn global_snapshot(self) -> WindowSnapshot {
        WindowSnapshot { limit: self.global.limit_of(), inflight: self.global.inflight }
    }

    /// Whether a task may start: fewer tasks run than the limit allows, in all, of its kind
    /// and for its target.
    pub open spec fn admits(self, kind: TaskKind, target: u64) -> bool {
        &&& self.global.inflight < self.global.limit_of()
        &&& self.kind_state(kind).has_room()
        &&& self.target_state(kind, target).has_room()
    }

    /// The state after a task asked to start. A refused task leaves no trace but the fresh
    /// states that were looked at.
    pub open spec fn acquired(self, kind: TaskKind, target: u64) -> ControllerView {
        let k = self.kind_state(kind);
        let t = self.target_state(kind, target);
        if self.global.inflight >= self.global.limit_of() {
            self
        } else if !k.has_room() {
            self.with_kind(kind, k)
        } else if !t.has_room() {
            self.with_kind(kind, k).with_target(kind, target, t)
        } else {
            ControllerView {
                global: WindowState {
                    inflight: (self.global.inflight + 1) as usize,
                    ..self.global
                },
                ..self.with_kind(kind, k.started()).with_target(kind, target, t.started())
            }
        }
    }

    /// The state after an admitted task ended.
    pub open spec fn released(self, kind: TaskKind, target: u64) -> ControllerView {
        ControllerView {
            limits: self.limits,
            global: WindowState {
                inflight: if self.global.inflight > 0 {
                    (self.global.inflight - 1) as usize
                } else {
                    0
                },
                ..self.global
            },
            kinds: if self.kinds.contains_key(kind) {
                self.kinds.insert(kind, self.kinds[kind].ended())
            } else {
                self.kinds
            },
            targets: if self.targets.contains_key((kind, target)) {
                self.targets.insert((kind, target), self.targets[(kind, target)].ended())
            } else {
                self.targets
            },
        }
    }

    /// The state after an outcome was recorded: the windows of the kind and of the target are
    /// adjusted.
    pub open spec fn recorded(self, kind: TaskKind, target: u64, outcome: Outcome) -> ControllerView {
        self.with_kind(kind, self.kind_state(kind).adjusted(outcome)).with_target(
            kind,
            target,
            self.target_state(kind, target).adjusted(outcome),
        )
    }
}

/// Decides which tasks may start, and adjusts the limits to how they end.
pub struct ConcurrencyController {
    limits: ConcurrencyLimits,
    global: WindowState,
    per_kind: KindMap<ScopeState>,
    per_target: KindMap<HashMap<u64, ScopeState>>,
}

impl View for ConcurrencyController {
    type V = ControllerView;

    closed spec fn view(&self) -> ControllerView {
        ControllerView {
            limits: |kind: TaskKind| self.limits.kind_limit(kind),
            global: self.global,
            kinds: self.per_kind@,
            targets: Map::new(
                |key: (TaskKind, u64)|
                    self.per_target@.contains_key(key.0) && self.per_target@[key.0]@.contains_key(
                        key.1,
                    ),
                |key: (TaskKind, u64)| self.per_target@[key.0]@[key.1],
            ),
        }
    }
}

impl ControllerView {
    /// Every window is valid.
    pub open spec fn wf(self) -> bool {
        &&& self.global.wf()
        &&& forall|kind: TaskKind| #[trigger]
            self.kinds.contains_key(kind) ==> self.kinds[kind].wf()
        &&& forall|key: (TaskKind, u64)| #[trigger]
            self.targets.contains_key(key) ==> self.targets[key].wf()
    }
}

impl ConcurrencyController {
    pub fn new(limits: ConcurrencyLimits) -> (r: ConcurrencyController)
        ensures
            r@.wf(),
            r@.limits == (|kind: TaskKind| limits.kind_limit(kind)),
            r@.global == WindowState::fresh(limits.global),
            r@.kinds == Map::<TaskKind, ScopeState>::empty(),
            r@.targets == Map::<(TaskKind, u64), ScopeState>::empty(),
    {
        let global: WindowState = WindowState::new(limits.global);
        let r: ConcurrencyController = ConcurrencyController {
            limits,
            global,
            per_kind: KindMap::new(),
            per_target: KindMap::new(),
        };
        assert(r@.targets =~= Map::<(TaskKind, u64), ScopeState>::empty());
        r
    }

    fn kind_entry(&self, kind: TaskKind) -> (r: ScopeState)
        requires
            self@.wf(),
        ensures
            r == self@.kind_state(kind),
            r.wf(),
    {
        assert(self.per_kind@.contains_key(kind) == self@.kinds.contains_key(kind));
        match self.per_kind.get(kind) {
            Some(state) => *state,
            None => ScopeState::new(self.limits.per_kind(kind)),
        }
    }

    fn target_get(&self, kind: TaskKind, target: u64) -> (r: Option<ScopeState>)
        ensures
            match r {
                Some(state) => self@.targets.contains_key((kind, target)) && state
                    == self@.targets[(kind, target)],
                None => !self@.targets.contains_key((kind, target)),
            },
    {
        match self.per_target.get(kind) {
            Some(states) => match states.get(&target) {
                Some(state) => Some(*state),
                None => None,
            },
            None => None,
        }
    }

    fn target_entry(&self, kind: TaskKind, target: u64) -> (r: ScopeState)
        requires
            self@.wf(),
        ensures
            r == self@.target_state(kind, target),
            r.wf(),
    {
        match self.target_get(kind, target) {
            Some(state) => state,
            None => ScopeState::new(self.limits.per_kind(kind)),
        }
    }

    fn put_kind(&mut self, kind: TaskKind, state: ScopeState)
        ensures
            final(self)@ == old(self)@.with_kind(kind, state),
    {
        self.per_kind.insert(kind, state);
        assert(self@.targets =~= old(self)@.targets);
    }

    fn put_target(&mut self, kind: TaskKind, target: u64, state: ScopeState)
        ensures
            final(self)@ == old(self)@.with_target(kind, target, state),
    {
        let mut states: HashMap<u64, ScopeState> = match self.per_target.remove(kind) {
            Some(states) => states,
            None => HashMap::new(),
        };
        states.insert(target, state);
        self.per_target.insert(kind, states);
        assert(self@.targets =~= old(self)@.targets.insert((kind, target), state));
    }

    /// The limit that keeps a task from starting, if one does: that on all tasks, that on its
    /// kind or that on its target.
    pub fn refused_by(&self, kind: TaskKind, target: u64) -> (r: Option<Scope>)
        requires
            self@.wf(),
        ensures
            r == (if self@.global.inflight >= self@.global.limit_of() {
                Some(Scope::Global)
            } else if !self@.kind_state(kind).has_room() {
                Some(Scope::Kind(kind))
            } else if !self@.target_state(kind, target).has_room() {
                Some(Scope::Target { kind, target })
            } else {
                None
            }),
            r is None <==> self@.admits(kind, target),
    {
        if self.global.inflight >= self.global.limit() {
            return Some(Scope::Global);
        }
        let kind_state: ScopeState = self.kind_entry(kind);
        if kind_state.inflight >= kind_state.window.limit() {
            return Some(Scope::Kind(kind));
        }
        let target_state: ScopeState = self.target_entry(kind, target);
        if target_state.inflight >= target_state.window.limit() {
            return Some(Scope::Target { kind, target });
        }
        None
    }

    /// Starts a task if the limits allow it.
    pub fn try_acquire(&mut self, kind: TaskKind, target: u64) -> (r: Option<
        (ConcurrencyPermit, AcquireSnapshot),
    >)
        requires
            old(self)@.wf(),
        ensures
            final(self)@.wf(),
            final(self)@ == old(self)@.acquired(kind, target),
            match r {
                Some((permit, windows)) => {
                    &&& old(self)@.admits(kind, target)
                    &&& permit.kind_of() == kind
                    &&& permit.target_of() == target
                    &&& windows.global == final(self)@.global_snapshot()
                    &&& windows.kind == final(self)@.kinds[kind].snapshot_of()
                    &&& windows.target == final(self)@.targets[(kind, target)].snapshot_of()
                },
                None => !old(self)@.admits(kind, target),
            },
    {
        if self.global.inflight >= self.global.limit() {
            return None;
        }
        let mut kind_state: ScopeState = self.kind_entry(kind);
        if kind_state.inflight >= kind_state.window.limit() {
            self.put_kind(kind, kind_state);
            return None;
        }
        let mut target_state: ScopeState = self.target_entry(kind, target);
        if target_state.inflight >= target_state.window.limit() {
            self.put_kind(kind, kind_state);
            self.put_target(kind, target, target_state);
            return None;
        }
        self.global.inflight = self.global.inflight + 1;
        kind_state.inflight = kind_state.inflight + 1;
        target_state.inflight = target_state.inflight + 1;
        assert(self@.targets =~= old(self)@.targets);
        self.put_kind(kind, kind_state);
        self.put_target(kind, target, target_state);
        Some(
            (
                ConcurrencyPermit { kind, target },
                AcquireSnapshot {
                    global: WindowSnapshot {
                        limit: self.global.limit(),
                        inflight: self.global.inflight,
                    },
                    kind: kind_state.snapshot(),
                    target: target_state.snapshot(),
                },
            ),
        )
    }

    /// How many more tasks of a kind its window allows.
    pub fn available(&self, kind: TaskKind) -> (r: usize)
        requires
            self@.wf(),
        ensures
            ({
                let state = self@.kind_state(kind);
                r == if self@.kinds.contains_key(kind) {
                    if state.has_room() {
                        state.window.limit_of() - state.inflight
                    } else {
                        0
                    }
                } else {
                    (self@.limits)(kind) as int
                }
            }),
    {
        assert(self.per_kind@.contains_key(kind) == self@.kinds.contains_key(kind));
        match self.per_kind.get(kind) {
            Some(state) => state.window.limit().saturating_sub(state.inflight),
            None => self.limits.per_kind(kind),
        }
    }

    /// Ends an admitted task.
    pub fn release(&mut self, permit: ConcurrencyPermit) -> (r: AdjustmentResult)
        requires
            old(self)@.wf(),
        ensures
            final(self)@.wf(),
            final(self)@ == old(self)@.released(permit.kind_of(), permit.target_of()),
            r.notified,
            r.global == final(self)@.global_snapshot(),
            r.kind == (if old(self)@.kinds.contains_key(permit.kind_of()) {
                Some(final(self)@.kinds[permit.kind_of()].snapshot_of())
            } else {
                None
            }),
            r.target == (if old(self)@.targets.contains_key(
                (permit.kind_of(), permit.target_of()),
            ) {
                Some(
                    final(self)@.targets[(permit.kind_of(), permit.target_of())].snapshot_of(),
                )
            } else {
                None
            }),
    {
        let kind: TaskKind = permit.kind;
        let target: u64 = permit.target;
        let target_snapshot: Option<WindowSnapshot> = match self.target_get(kind, target) {
            Some(found) => {
                let mut state: ScopeState = found;
                if state.inflight > 0 {
                    state.inflight = state.inflight - 1;
                }
                self.put_target(kind, target, state);
                Some(state.snapshot())
            },
            None => None,
        };
        assert(self.per_kind@.contains_key(kind) == self@.kinds.contains_key(kind));
        let kind_found: Option<ScopeState> = match self.per_kind.get(kind) {
            Some(state) => Some(*state),
            None => None,
        };
        let kind_snapshot: Option<WindowSnapshot> = match kind_found {
            Some(found) => {
                let mut state: ScopeState = found;
                if state.inflight > 0 {
                    state.inflight = state.inflight - 1;
                }
                self.put_kind(kind, state);
                Some(state.snapshot())
            },
            None => None,
        };
        let ghost before = self@;
        if self.global.inflight > 0 {
            self.global.inflight = self.global.inflight - 1;
        }
        assert(self@.targets =~= before.targets);
        assert(self@.limits =~= old(self)@.limits);
        AdjustmentResult {
            notified: true,
            global: WindowSnapshot { limit: self.global.limit(), inflight: self.global.inflight },
            kind: kind_snapshot,
            target: target_snapshot,
        }
    }

    /// Adjusts the windows of a kind and of a target to how a task ended.
    pub fn apply_outcome(&mut self, kind: TaskKind, target: u64, outcome: Outcome) -> (r:
        AdjustmentResult)
        requires
            old(self)@.wf(),
        ensures
            final(self)@.wf(),
            final(self)@ == old(self)@.recorded(kind, target, outcome),
            r.notified == (outcome != Outcome::Success || old(self)@.kind_state(kind).grows()
                || old(self)@.target_state(kind, target).grows()),
            r.global == final(self)@.global_snapshot(),
            r.kind == Some(final(self)@.kinds[kind].snapshot_of()),
            r.target == Some(final(self)@.targets[(kind, target)].snapshot_of()),
    {
        let mut kind_state: ScopeState = self.kind_entry(kind);
        let mut target_state: ScopeState = self.target_entry(kind, target);
        let kind_grew: bool = kind_state.adjust(outcome);
        let target_grew: bool = target_state.adjust(outcome);
        self.put_kind(kind, kind_state);
        self.put_target(kind, target, target_state);
        let notified: bool = match outcome {
            Outcome::Success => kind_grew || target_grew,
            Outcome::Timeout | Outcome::Error => true,
        };
        AdjustmentResult {
            notified,
            global: WindowSnapshot { limit: self.global.limit(), inflight: self.global.inflight },
            kind: Some(kind_state.snapshot()),
            target: Some(target_state.snapshot()),
        }
    }

    pub fn record_success(&mut self, kind: TaskKind, target: u64) -> (r: AdjustmentResult)
        requires
            old(self)@.wf(),
        ensures
            final(self)@.wf(),
            final(self)@ == old(self)@.recorded(kind, target, Outcome::Success),
            r.notified == (old(self)@.kind_state(kind).grows() || old(self)@.target_state(
                kind,
                target,
            ).grows()),
            r.global == final(self)@.global_snapshot(),
            r.kind == Some(final(self)@.kinds[kind].snapshot_of()),
            r.target == Some(final(self)@.targets[(kind, target)].snapshot_of()),
    {
        self.apply_outcome(kind, target, Outcome::Success)
    }

    pub fn record_timeout(&mut self, kind: TaskKind, target: u64) -> (r: AdjustmentResult)
        requires
            old(self)@.wf(),
        ensures
            final(self)@.wf(),
            final(self)@ == old(self)@.recorded(kind, target, Outcome::Timeout),
            r.notified,
            r.global == final(self)@.global_snapshot(),
            r.kind == Some(final(self)@.kinds[kind].snapshot_of()),
            r.target == Some(final(self)@.targets[(kind, target)].snapshot_of()),
    {
        self.apply_outcome(kind, target, Outcome::Timeout)
    }

    pub fn record_error(&mut self, kind: TaskKind, target: u64) -> (r: AdjustmentResult)
        requires
            old(self)@.wf(),
        ensures
            final(self)@.wf(),
            final(self)@ == old(self)@.recorded(kind, target, Outcome::Error),
            r.notified,
            r.global == final(self)@.global_snapshot(),
            r.kind == Some(final(self)@.kinds[kind].snapshot_of()),
            r.target == Some(final(self)@.targets[(kind, target)].snapshot_of()),
    {
        self.apply_outcome(kind, target, Outcome::Error)
    }
}

/// A task that is admitted and then ends leaves the windows as if it had never asked, but
/// for the fresh states that were made for it.
pub proof fn law_release_undoes_acquire(c: ControllerView, kind: TaskKind, target: u64)
    requires
        c.admits(kind, target),
    ensures
        ({
            let after = c.acquired(kind, target).released(kind, target);
            &&& after.global == c.global
            &&& after.kinds == c.kinds.insert(kind, c.kind_state(kind))
            &&& after.targets == c.targets.insert((kind, target), c.target_state(kind, target))
        }),
{
    let after = c.acquired(kind, target).released(kind, target);
    assert(after.kinds =~= c.kinds.insert(kind, c.kind_state(kind)));
    assert(after.targets =~= c.targets.insert((kind, target), c.target_state(kind, target)));
}

/// Asking to start a task never brings more tasks over a limit: after it was admitted, the
/// tasks in all, of its kind and for its target number at most the limit, which did not change.
pub proof fn law_admission_respects_limits(c: ControllerView, kind: TaskKind, target: u64)
    requires
        c.admits(kind, target),
    ensures
        ({
            let after = c.acquired(kind, target);
            &&& after.global.inflight <= after.global.limit_of() == c.global.limit_of()
            &&& after.kinds[kind].inflight <= after.kinds[kind].window.limit_of()
                == c.kind_state(kind).window.limit_of()
            &&& after.targets[(kind, target)].inflight <= after.targets[(
                kind,
                target,
            )].window.limit_of() == c.target_state(kind, target).window.limit_of()
        }),
{
}

/// A refused task changes no window and no count.
pub proof fn law_refusal_changes_nothing(
    c: ControllerView,
    kind: TaskKind,
    target: u64,
    other: TaskKind,
    other_target: u64,
)
    requires
        !c.admits(kind, target),
    ensures
        ({
            let after = c.acquired(kind, target);
            &&& after.global == c.global
            &&& after.kind_state(other) == c.kind_state(other)
            &&& after.target_state(other, other_target) == c.target_state(other, other_target)
        }),
{
}

/// An outcome moves the window of the kind and that of the target alike. A success adds one to
/// the size, but not over the largest size, and where the sum takes more than 53 bits it may be
/// off by half the distance of such numbers. A timeout or an error halves the size, down to
/// one. The largest size and the running tasks stay, and the outcome is counted.
pub proof fn law_outcome_moves_both_windows(
    c: ControllerView,
    kind: TaskKind,
    target: u64,
    outcome: Outcome,
    before: ScopeState,
    after: ScopeState,
)
    requires
        c.wf(),
        ({
            ||| before == c.kind_state(kind) && after == c.recorded(
                kind,
                target,
                outcome,
            ).kinds[kind]
            ||| before == c.target_state(kind, target) && after == c.recorded(
                kind,
                target,
                outcome,
            ).targets[(kind, target)]
        }),
    ensures
        c.recorded(kind, target, outcome).kinds.contains_key(kind),
        c.recorded(kind, target, outcome).targets.contains_key((kind, target)),
        after.window.max == before.window.max,
        after.inflight == before.inflight,
        outcome == Outcome::Success ==> {
            &&& before.window.current <= after.window.current <= after.window.max
            &&& before.window.current + ONE >= before.window.max ==> after.window.current
                == before.window.max
            &&& before.window.current + ONE <= before.window.max && exact(
                (before.window.current + ONE) as nat,
            ) ==> after.window.current == before.window.current + ONE
            &&& before.window.current % ONE == 0 && before.window.current + ONE
                <= before.window.max && before.window.max <= PRECISION * ONE
                ==> after.window.current == before.window.current + ONE
                && (before.window.current as int / ONE as int >= usize::MAX
                || after.window.limit_of() == before.window.limit_of() + 1)
        },
        outcome != Outcome::Success ==> after.window.current == if before.window.current >= 2 * ONE {
            before.window.current as int / 2
        } else {
            ONE as int
        },
        after.stats.successes as int == (before.stats.successes + if outcome == Outcome::Success {
            1int
        } else {
            0
        }) % 0x1_0000_0000_0000_0000,
        after.stats.timeouts as int == (before.stats.timeouts + if outcome == Outcome::Timeout {
            1int
        } else {
            0
        }) % 0x1_0000_0000_0000_0000,
        after.stats.errors as int == (before.stats.errors + if outcome == Outcome::Error {
            1int
        } else {
            0
        }) % 0x1_0000_0000_0000_0000,
{
    lemma_fresh_wf((c.limits)(kind));
    assert(before.window.wf());
    lemma_success(before.window);
}

/// A task may start exactly if fewer tasks run than the limit allows in all, of its kind and for
/// its target. It is then counted once in each of the three, and no window changes.
pub proof fn law_admission_counts_once(
    c: ControllerView,
    kind: TaskKind,
    target: u64,
    other: TaskKind,
    other_target: u64,
)
    requires
        c.wf(),
    ensures
        c.admits(kind, target) <==> {
            &&& c.global.inflight < c.global.current as int / ONE as int
            &&& c.global.inflight < usize::MAX
            &&& c.kind_state(kind).inflight < c.kind_state(kind).window.current as int / ONE as int
            &&& c.kind_state(kind).inflight < usize::MAX
            &&& c.target_state(kind, target).inflight < c.target_state(
                kind,
                target,
            ).window.current as int / ONE as int
            &&& c.target_state(kind, target).inflight < usize::MAX
        },
        c.admits(kind, target) ==> ({
            let after = c.acquired(kind, target);
            &&& after.global.inflight == c.global.inflight + 1
            &&& after.global.current == c.global.current && after.global.max == c.global.max
            &&& after.kind_state(other).inflight == c.kind_state(other).inflight + if other == kind {
                1int
            } else {
                0
            }
            &&& after.kind_state(other).window == c.kind_state(other).window
            &&& after.kind_state(other).stats == c.kind_state(other).stats
            &&& after.target_state(other, other_target).inflight == c.target_state(
                other,
                other_target,
            ).inflight + if other == kind && other_target == target {
                1int
            } else {
                0
            }
            &&& after.target_state(other, other_target).window == c.target_state(
                other,
                other_target,
            ).window
            &&& after.target_state(other, other_target).stats == c.target_state(
                other,
                other_target,
            ).stats
        }),
{
}

/// A task that ends is counted out once in all, of its kind and for its target, and no window
/// changes.
pub proof fn law_release_counts_out_once(
    c: ControllerView,
    kind: TaskKind,
    target: u64,
    other: TaskKind,
    other_target: u64,
)
    requires
        c.global.inflight > 0,
        c.kinds.contains_key(kind) && c.kinds[kind].inflight > 0,
        c.targets.contains_key((kind, target)) && c.targets[(kind, target)].inflight > 0,
    ensures
        ({
            let after = c.released(kind, target);
            &&& after.global.inflight == c.global.inflight - 1
            &&& after.global.current == c.global.current && after.global.max == c.global.max
            &&& after.kind_state(other).inflight == c.kind_state(other).inflight - if other == kind {
                1int
            } else {
                0
            }
            &&& after.kind_state(other).window == c.kind_state(other).window
            &&& after.kind_state(other).stats == c.kind_state(other).stats
            &&& after.target_state(other, other_target).inflight == c.target_state(
                other,
                other_target,
            ).inflight - if other == kind && other_target == target {
                1int
            } else {
                0
            }
            &&& after.target_state(other, other_target).window == c.target_state(
                other,
                other_target,
            ).window
            &&& after.target_state(other, other_target).stats == c.target_state(
                other,
                other_target,
            ).stats
        }),
{
}

/// A kind and a target that were never seen have the window that is configured for the kind,
/// which is one where nothing is, and no running task.
pub proof fn law_unseen_scopes_have_the_configured_limit(
    limits: ConcurrencyLimits,
    c: ControllerView,
    kind: TaskKind,
    target: u64,
)
    requires
        c.limits == (|k: TaskKind| limits.kind_limit(k)),
        limits.per_kind@.contains_key(kind) ==> limits.per_kind@[kind] <= PRECISION,
    ensures
        ({
            let limit: int = if limits.per_kind@.contains_key(kind) && limits.per_kind@[kind] > 0 {
                limits.per_kind@[kind] as int
            } else {
                1
            };
            &&& !c.kinds.contains_key(kind) ==> c.kind_state(kind).window.limit_of() == limit
                && c.kind_state(kind).inflight == 0
            &&& !c.targets.contains_key((kind, target)) ==> c.target_state(
                kind,
                target,
            ).window.limit_of() == limit && c.target_state(kind, target).inflight == 0
        }),
{
    law_window_starts_full(limits.kind_limit(kind));
}

/// Recording an outcome starts and ends no task, and touches no other kind and no other target.
pub proof fn law_outcome_is_local(
    c: ControllerView,
    kind: TaskKind,
    target: u64,
    outcome: Outcome,
    other: TaskKind,
    other_target: u64,
)
    ensures
        ({
            let after = c.recorded(kind, target, outcome);
            &&& after.global == c.global
            &&& after.kind_state(other).inflight == c.kind_state(other).inflight
            &&& other != kind ==> after.kind_state(other) == c.kind_state(other)
            &&& (other, other_target) != (kind, target) ==> after.target_state(other, other_target)
                == c.target_state(other, other_target)
        }),
{
}

/// How many tasks of all kinds run.
pub open spec fn running(c: ControllerView) -> int {
    c.kind_state(TaskKind::Dns).inflight + c.kind_state(TaskKind::Http).inflight + c.kind_state(
        TaskKind::Tcp,
    ).inflight + c.kind_state(TaskKind::Ping).inflight + c.kind_state(TaskKind::Trace).inflight
}

/// The tasks of all kinds add up to those that are counted in all: this holds at the start, and
/// admissions, outcomes and the end of a running task keep it.
pub proof fn law_running_tasks_add_up(
    c: ControllerView,
    kind: TaskKind,
    target: u64,
    outcome: Outcome,
)
    ensures
        c.kinds == Map::<TaskKind, ScopeState>::empty() && c.global.inflight == 0 ==> c.global.inflight
            == running(c),
        c.global.inflight == running(c) ==> {
            &&& c.acquired(kind, target).global.inflight == running(c.acquired(kind, target))
            &&& c.recorded(kind, target, outcome).global.inflight == running(
                c.recorded(kind, target, outcome),
            )
            &&& c.kind_state(kind).inflight > 0 ==> c.released(kind, target).global.inflight
                == running(c.released(kind, target))
        },
{
}

/// After a success those that wait are told whenever the window was not full, and not when it was
/// full and whole. The sizes are those at which adding one needs no rounding.
pub proof fn law_waiting_tasks_hear_of_room(scope: ScopeState)
    requires
        scope.window.wf(),
    ensures
        scope.window.current < scope.window.max && scope.window.max <= PRECISION * ONE
            ==> scope.grows(),
        scope.window.current == scope.window.max && scope.window.current % ONE == 0
            ==> !scope.grows(),
{
    lemma_success(scope.window);
    let c = scope.window.current;
    assert((c / ONE) * ONE + c % ONE == c);
}

} // verus!
