//! What is stored of the windows.

use vstd::prelude::*;
use vstd::string::*;

use crate::concurrency::controller::{AcquireSnapshot, AdjustmentResult, WindowSnapshot};
use crate::kinds::{kind_label, label_of, TaskKind};

verus! {

/// Which window a stored row describes.
#[derive(Debug, Clone, Copy, PartialEq, Eq, Structural)]
pub enum Scope {
    Global,
    Kind(TaskKind),
    Target { kind: TaskKind, target: u64 },
}

/// A window as it is stored.
#[derive(Debug, Clone, Copy, PartialEq, Eq, Structural)]
pub struct PersistedWindow {
    pub scope: Scope,
    pub limit: usize,
    pub inflight: usize,
}

/// The key of a stored row: the name of the scope, the kind and the target.
pub struct WindowKey {
    pub scope: &'static str,
    pub kind: Option<&'static str>,
    pub target: Option<u64>,
}

impl PersistedWindow {
    pub fn global(window: WindowSnapshot) -> (r: PersistedWindow)
        ensures
            r == (PersistedWindow {
                scope: Scope::Global,
                limit: window.limit,
                inflight: window.inflight,
            }),
    {
        PersistedWindow { scope: Scope::Global, limit: window.limit, inflight: window.inflight }
    }

    pub fn kind(kind: TaskKind, window: WindowSnapshot) -> (r: PersistedWindow)
        ensures
            r == (PersistedWindow {
                scope: Scope::Kind(kind),
                limit: window.limit,
                inflight: window.inflight,
            }),
    {
        PersistedWindow { scope: Scope::Kind(kind), limit: window.limit, inflight: window.inflight }
    }

    pub fn target(kind: TaskKind, target: u64, window: WindowSnapshot) -> (r: PersistedWindow)
        ensures
            r == (PersistedWindow {
                scope: Scope::Target { kind, target },
                limit: window.limit,
                inflight: window.inflight,
            }),
    {
        PersistedWindow {
            scope: Scope::Target { kind, target },
            limit: window.limit,
            inflight: window.inflight,
        }
    }

    /// The key of the row that holds the window.
    pub fn key(&self) -> (r: WindowKey)
        ensures
            match self.scope {
                Scope::Global => r.scope@ == "global"@ && r.kind is None && r.target is None,
                Scope::Kind(kind) => r.scope@ == "kind"@ && r.kind is Some && r.kind->0@ == label_of(
                    kind,
                ) && r.target is None,
                Scope::Target { kind, target } => r.scope@ == "target"@ && r.kind is Some
                    && r.kind->0@ == label_of(kind) && r.target == Some(target),
            },
    {
        match self.scope {
            Scope::Global => WindowKey { scope: "global", kind: None, target: None },
            Scope::Kind(kind) => WindowKey {
                scope: "kind",
                kind: Some(kind_label(kind)),
                target: None,
            },
            Scope::Target { kind, target } => WindowKey {
                scope: "target",
                kind: Some(kind_label(kind)),
                target: Some(target),
            },
        }
    }
}

/// What is stored after a task of `kind` for `target` was admitted.
pub fn acquired_windows(kind: TaskKind, target: u64, windows: &AcquireSnapshot) -> (r: Vec<
    PersistedWindow,
>)
    ensures
        r@ == seq![
            PersistedWindow {
                scope: Scope::Global,
                limit: windows.global.limit,
                inflight: windows.global.inflight,
            },
            PersistedWindow {
                scope: Scope::Kind(kind),
                limit: windows.kind.limit,
                inflight: windows.kind.inflight,
            },
            PersistedWindow {
                scope: Scope::Target { kind, target },
                limit: windows.target.limit,
                inflight: windows.target.inflight,
            },
        ],
{
    let mut r: Vec<PersistedWindow> = Vec::new();
    r.push(PersistedWindow::global(windows.global));
    r.push(PersistedWindow::kind(kind, windows.kind));
    r.push(PersistedWindow::target(kind, target, windows.target));
    r
}

/// The window of a scope, if it is known.
pub open spec fn stored(scope: Scope, window: Option<WindowSnapshot>) -> Seq<PersistedWindow> {
    match window {
        Some(w) => seq![PersistedWindow { scope, limit: w.limit, inflight: w.inflight }],
        None => Seq::empty(),
    }
}

/// What is stored after a task of `kind` for `target` ended or its outcome was recorded.
pub fn adjusted_windows(kind: TaskKind, target: u64, result: &AdjustmentResult) -> (r: Vec<
    PersistedWindow,
>)
    ensures
        r@ == stored(Scope::Global, Some(result.global)) + stored(Scope::Kind(kind), result.kind)
            + stored(Scope::Target { kind, target }, result.target),
{
    let mut r: Vec<PersistedWindow> = Vec::new();
    r.push(PersistedWindow::global(result.global));
    if let Some(window) = result.kind {
        r.push(PersistedWindow::kind(kind, window));
    }
    if let Some(window) = result.target {
        r.push(PersistedWindow::target(kind, target, window));
    }
    assert(r@ =~= stored(Scope::Global, Some(result.global)) + stored(
        Scope::Kind(kind),
        result.kind,
    ) + stored(Scope::Target { kind, target }, result.target));
    r
}

} // verus!
