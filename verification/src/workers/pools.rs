//! Worker pools: how large they are, and what becomes of the tasks that they run.

use vstd::prelude::*;
use vstd::string::*;

use crate::concurrency::controller::{
    AdjustmentResult, ConcurrencyController, ConcurrencyLimits, ConcurrencyPermit, Outcome,
};
use crate::control_plane::LeaseReport;
use crate::kinds::{all_kinds, kind_label, label_of, KindMap, TaskKind};
use crate::text::{decimal_text, law_parse_reads_decimal, parse_unsigned, parsed};
use crate::workers::report::{entries, WorkerReport};

verus! {

/// How many tasks of each kind run at once, and how many threads traces have.
#[derive(Debug, Clone)]
pub struct WorkerPoolsConfig {
    per_kind: KindMap<usize>,
    trace_runtime_workers: usize,
}

/// The contents of a [`WorkerPoolsConfig`].
pub struct PoolsView {
    pub per_kind: Map<TaskKind, usize>,
    pub trace_runtime_workers: usize,
}

impl View for WorkerPoolsConfig {
    type V = PoolsView;

    closed spec fn view(&self) -> PoolsView {
        PoolsView {
            per_kind: self.per_kind@,
            trace_runtime_workers: self.trace_runtime_workers,
        }
    }
}

/// The size of a pool if nothing else is configured.
pub open spec fn default_size(kind: TaskKind) -> usize {
    match kind {
        TaskKind::Dns => 4,
        TaskKind::Http => 2,
        TaskKind::Tcp => 2,
        TaskKind::Ping => 2,
        TaskKind::Trace => 1,
    }
}

/// The positive number that a variable stands for, if it stands for one.
pub open spec fn positive(value: Option<Seq<char>>) -> Option<nat> {
    match value {
        Some(text) => match parsed(text, usize::MAX as nat) {
            Some(n) if n > 0 => Some(n),
            _ => None,
        },
        None => None,
    }
}

fn positive_number(value: Option<&String>) -> (r: Option<usize>)
    ensures
        match value {
            Some(text) => match positive(Some(text@)) {
                Some(n) => r is Some && r->0 == n,
                None => r is None,
            },
            None => r is None,
        },
{
    match value {
        Some(text) => match parse_unsigned(text.as_str(), usize::MAX as u64) {
            Some(n) => if n > 0 {
                Some(n as usize)
            } else {
                None
            },
            None => None,
        },
        None => None,
    }
}

impl PoolsView {
    pub open spec fn standard() -> PoolsView {
        PoolsView {
            per_kind: Map::new(|kind: TaskKind| true, |kind: TaskKind| default_size(kind)),
            trace_runtime_workers: 2,
        }
    }

    /// The size of a pool: the configured one, but at least one.
    pub open spec fn size(self, kind: TaskKind) -> usize {
        if self.per_kind.contains_key(kind) && self.per_kind[kind] > 0 {
            self.per_kind[kind]
        } else {
            1
        }
    }

    /// What is configured for a kind; zero if nothing is.
    pub open spec fn share(self, kind: TaskKind) -> nat {
        if self.per_kind.contains_key(kind) {
            self.per_kind[kind] as nat
        } else {
            0
        }
    }

    /// The sum of what is configured for all kinds.
    pub open spec fn total(self) -> nat {
        self.share(TaskKind::Dns) + self.share(TaskKind::Http) + self.share(TaskKind::Tcp)
            + self.share(TaskKind::Ping) + self.share(TaskKind::Trace)
    }
}

/// The name of the variable that configures the size of a pool.
pub open spec fn size_variable(kind: TaskKind) -> Seq<char> {
    match kind {
        TaskKind::Dns => "AGENT_POOL_DNS_SIZE"@,
        TaskKind::Http => "AGENT_POOL_HTTP_SIZE"@,
        TaskKind::Tcp => "AGENT_POOL_TCP_SIZE"@,
        TaskKind::Ping => "AGENT_POOL_PING_SIZE"@,
        TaskKind::Trace => "AGENT_POOL_TRACE_SIZE"@,
    }
}

/// The name of the variable that configures the size of a pool.
pub fn pool_variable(kind: TaskKind) -> (r: &'static str)
    ensures
        r@ == size_variable(kind),
{
    match kind {
        TaskKind::Dns => "AGENT_POOL_DNS_SIZE",
        TaskKind::Http => "AGENT_POOL_HTTP_SIZE",
        TaskKind::Tcp => "AGENT_POOL_TCP_SIZE",
        TaskKind::Ping => "AGENT_POOL_PING_SIZE",
        TaskKind::Trace => "AGENT_POOL_TRACE_SIZE",
    }
}

/// The name of the variable that configures the threads of the trace runtime.
pub fn trace_runtime_variable() -> (r: &'static str)
    ensures
        r@ == "AGENT_TRACE_RUNTIME_WORKERS"@,
{
    "AGENT_TRACE_RUNTIME_WORKERS"
}

/// The value of a variable among `values`, if it has one.
pub open spec fn variable(values: Map<TaskKind, String>, kind: TaskKind) -> Option<Seq<char>> {
    if values.contains_key(kind) {
        Some(values[kind]@)
    } else {
        None
    }
}

impl WorkerPoolsConfig {
    pub fn new() -> (r: WorkerPoolsConfig)
        ensures
            r@ == PoolsView::standard(),
    {
        let mut per_kind: KindMap<usize> = KindMap::new();
        per_kind.insert(TaskKind::Dns, 4);
        per_kind.insert(TaskKind::Http, 2);
        per_kind.insert(TaskKind::Tcp, 2);
        per_kind.insert(TaskKind::Ping, 2);
        per_kind.insert(TaskKind::Trace, 1);
        assert(per_kind@ =~= PoolsView::standard().per_kind);
        WorkerPoolsConfig { per_kind, trace_runtime_workers: 2 }
    }

    fn take_size(&mut self, sizes: &KindMap<String>, kind: TaskKind)
        ensures
            final(self)@ == (PoolsView {
                per_kind: match positive(variable(sizes@, kind)) {
                    Some(n) => old(self)@.per_kind.insert(kind, n as usize),
                    None => old(self)@.per_kind,
                },
                ..old(self)@
            }),
    {
        if let Some(n) = positive_number(sizes.get(kind)) {
            self.per_kind.insert(kind, n);
        }
    }

    /// The standard configuration with the sizes that the variables give. Values that are no
    /// positive numbers are passed over.
    pub fn from_env(sizes: &KindMap<String>, trace_workers: Option<String>) -> (r:
        WorkerPoolsConfig)
        ensures
            forall|kind: TaskKind| #[trigger]
                r@.per_kind.contains_key(kind) && r@.per_kind[kind] == match positive(
                    variable(sizes@, kind),
                ) {
                    Some(n) => n as usize,
                    None => default_size(kind),
                },
            r@.trace_runtime_workers == match trace_workers {
                Some(text) => match positive(Some(text@)) {
                    Some(n) => n as usize,
                    None => 2,
                },
                None => 2,
            },
    {
        let mut config: WorkerPoolsConfig = WorkerPoolsConfig::new();
        config.take_size(sizes, TaskKind::Dns);
        config.take_size(sizes, TaskKind::Http);
        config.take_size(sizes, TaskKind::Tcp);
        config.take_size(sizes, TaskKind::Ping);
        config.take_size(sizes, TaskKind::Trace);
        if let Some(n) = positive_number(trace_workers.as_ref()) {
            config.trace_runtime_workers = n;
        }
        config
    }

    pub fn concurrency(&self, kind: TaskKind) -> (r: usize)
        ensures
            r == self@.size(kind),
    {
        match self.per_kind.get(kind) {
            Some(n) => if *n > 0 {
                *n
            } else {
                1
            },
            None => 1,
        }
    }

    pub fn trace_runtime_workers(&self) -> (r: usize)
        ensures
            r == (if self@.trace_runtime_workers > 1 {
                self@.trace_runtime_workers
            } else {
                1
            }),
    {
        if self.trace_runtime_workers > 1 {
            self.trace_runtime_workers
        } else {
            1
        }
    }

    pub fn set_concurrency(&mut self, kind: TaskKind, value: usize)
        ensures
            final(self)@ == (PoolsView {
                per_kind: old(self)@.per_kind.insert(
                    kind,
                    if value > 1 {
                        value
                    } else {
                        1
                    },
                ),
                ..old(self)@
            }),
    {
        let value: usize = if value > 1 {
            value
        } else {
            1
        };
        self.per_kind.insert(kind, value);
    }

    fn configured(&self, kind: TaskKind) -> (r: usize)
        ensures
            r == self@.share(kind),
    {
        match self.per_kind.get(kind) {
            Some(n) => *n,
            None => 0,
        }
    }

    /// The limits on how many tasks run at once: per kind as configured, and in all their sum,
    /// but at least one.
    pub fn concurrency_limits(&self) -> (r: ConcurrencyLimits)
        requires
            self@.total() <= usize::MAX,
        ensures
            r.per_kind@ == self@.per_kind,
            r.global == (if self@.total() > 1 {
                self@.total()
            } else {
                1
            }),
    {
        let total: usize = self.configured(TaskKind::Dns) + self.configured(TaskKind::Http)
            + self.configured(TaskKind::Tcp) + self.configured(TaskKind::Ping) + self.configured(
            TaskKind::Trace,
        );
        let global: usize = if total > 1 {
            total
        } else {
            1
        };
        ConcurrencyLimits::new(self.per_kind.copy(), global)
    }
}

impl Default for WorkerPoolsConfig {
    fn default() -> (r: WorkerPoolsConfig)
        ensures
            r@ == PoolsView::standard(),
    {
        WorkerPoolsConfig::new()
    }
}

/// How a pool is run.
#[derive(Debug, Clone, Copy)]
pub struct PoolPlan {
    pub kind: TaskKind,
    pub label: &'static str,
    /// The threads and the queue length of a runtime of its own, if the pool has one.
    pub runtime: Option<(usize, usize)>,
}

/// The pools, in the order in which they are started. Traces have a runtime of their own,
/// with room for four waiting tasks per thread.
pub fn pool_plans(config: &WorkerPoolsConfig) -> (r: Vec<PoolPlan>)
    requires
        config@.trace_runtime_workers * 4 <= usize::MAX,
    ensures
        r@.len() == 5,
        forall|i: int|
            0 <= i < 5 ==> {
                &&& (#[trigger] r@[i]).kind == all_kinds()[i]
                &&& r@[i].label@ == label_of(all_kinds()[i])
                &&& r@[i].runtime == if i == 4 {
                    let n = if config@.trace_runtime_workers > 1 {
                        config@.trace_runtime_workers
                    } else {
                        1
                    };
                    Some((n, (n * 4) as usize))
                } else {
                    None
                }
            },
{
    let workers: usize = config.trace_runtime_workers();
    let mut r: Vec<PoolPlan> = Vec::new();
    r.push(PoolPlan { kind: TaskKind::Dns, label: kind_label(TaskKind::Dns), runtime: None });
    r.push(PoolPlan { kind: TaskKind::Http, label: kind_label(TaskKind::Http), runtime: None });
    r.push(PoolPlan { kind: TaskKind::Tcp, label: kind_label(TaskKind::Tcp), runtime: None });
    r.push(PoolPlan { kind: TaskKind::Ping, label: kind_label(TaskKind::Ping), runtime: None });
    r.push(
        PoolPlan {
            kind: TaskKind::Trace,
            label: kind_label(TaskKind::Trace),
            runtime: Some((workers, workers * 4)),
        },
    );
    r
}

/// Why a trace could not be run.
#[derive(Debug, Clone, Copy, PartialEq, Eq, Structural)]
pub enum TraceRuntimeError {
    ChannelClosed,
}

impl TraceRuntimeError {
    /// The message shown to users.
    pub fn message(&self) -> (r: &'static str)
        ensures
            r@ == "trace runtime channel closed"@,
    {
        "trace runtime channel closed"
    }
}

/// How a worker ended.
pub enum HandlerOutcome {
    Report(WorkerReport),
    Failed,
    Panicked,
}

/// What follows: the windows were adjusted as `adjustment` says, and `report` is sent, if
/// there is anything to report.
pub struct Settlement {
    pub adjustment: AdjustmentResult,
    pub report: Option<(Vec<LeaseReport>, Vec<LeaseReport>)>,
}

/// Takes the outcome of an admitted task: it counts as a success if the worker reported, and
/// as an error otherwise. The task runs on until it is released.
pub fn settle_task(
    controller: &mut ConcurrencyController,
    permit: &ConcurrencyPermit,
    outcome: HandlerOutcome,
) -> (r: Settlement)
    requires
        old(controller)@.wf(),
    ensures
        final(controller)@.wf(),
        final(controller)@ == old(controller)@.recorded(
            permit.kind_of(),
            permit.target_of(),
            if outcome is Report {
                Outcome::Success
            } else {
                Outcome::Error
            },
        ),
        r.adjustment.notified == (!(outcome is Report) || old(controller)@.kind_state(
            permit.kind_of(),
        ).grows() || old(controller)@.target_state(permit.kind_of(), permit.target_of()).grows()),
        r.adjustment.global == final(controller)@.global_snapshot(),
        r.adjustment.kind == Some(final(controller)@.kinds[permit.kind_of()].snapshot_of()),
        r.adjustment.target == Some(
            final(controller)@.targets[(permit.kind_of(), permit.target_of())].snapshot_of(),
        ),
        match outcome {
            HandlerOutcome::Report(report) => if report@.completed.len() == 0
                && report@.cancelled.len() == 0 {
                r.report is None
            } else {
                match r.report {
                    Some((completed, cancelled)) => entries(completed@) == report@.completed
                        && entries(cancelled@) == report@.cancelled,
                    None => false,
                }
            },
            _ => r.report is None,
        },
{
    let kind: TaskKind = permit.kind();
    let target: u64 = permit.target();
    match outcome {
        HandlerOutcome::Report(report) => {
            let adjustment: AdjustmentResult = controller.record_success(kind, target);
            if report.is_empty() {
                Settlement { adjustment, report: None }
            } else {
                Settlement { adjustment, report: Some(report.into_parts()) }
            }
        },
        HandlerOutcome::Failed | HandlerOutcome::Panicked => {
            let adjustment: AdjustmentResult = controller.record_error(kind, target);
            Settlement { adjustment, report: None }
        },
    }
}

/// The limit on all tasks is at least the size of each pool that is configured.
pub proof fn law_total_covers_pools(config: PoolsView, kind: TaskKind)
    requires
        config.per_kind.contains_key(kind),
    ensures
        config.per_kind[kind] <= config.total(),
{
}

/// The number of workers in all is that of all pools together.
pub proof fn law_total_is_the_sum_of_the_pools(config: PoolsView)
    requires
        forall|kind: TaskKind| config.per_kind.contains_key(kind),
    ensures
        config.total() == config.per_kind[TaskKind::Dns] + config.per_kind[TaskKind::Http]
            + config.per_kind[TaskKind::Tcp] + config.per_kind[TaskKind::Ping]
            + config.per_kind[TaskKind::Trace],
{
}

/// A pool that is left out counts for nothing in the total.
pub proof fn law_absent_pool_adds_nothing(config: PoolsView, kind: TaskKind, n: usize)
    requires
        !config.per_kind.contains_key(kind),
    ensures
        ({
            let with = PoolsView { per_kind: config.per_kind.insert(kind, n), ..config };
            with.total() == config.total() + n
        }),
{
}

/// A pool has as many workers as it is given, and one if it is given none.
pub proof fn law_pool_has_a_worker(config: PoolsView, kind: TaskKind)
    ensures
        config.size(kind) >= 1,
        config.per_kind.contains_key(kind) && config.per_kind[kind] >= 1 ==> config.size(kind)
            == config.per_kind[kind],
        !config.per_kind.contains_key(kind) || config.per_kind[kind] == 0 ==> config.size(kind) == 1,
{
}

/// A variable that holds a number above zero sets the size, and any other does not.
pub proof fn law_variable_sets_a_positive_size(n: nat)
    requires
        n <= usize::MAX,
    ensures
        n > 0 ==> positive(Some(decimal_text(n))) == Some(n),
        n == 0 ==> positive(Some(decimal_text(n))) is None,
        positive(None) is None,
{
    law_parse_reads_decimal(n, usize::MAX as nat);
}

} // verus!
