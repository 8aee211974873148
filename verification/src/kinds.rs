//! Task kinds and maps keyed by them.

use vstd::prelude::*;

verus! {

/// What a task measures.
#[derive(Debug, Clone, Copy, PartialEq, Eq, PartialOrd, Ord, Hash, Structural)]
pub enum TaskKind {
    Dns,
    Http,
    Tcp,
    Ping,
    Trace,
}

/// The label of a kind.
pub open spec fn label_of(kind: TaskKind) -> Seq<char> {
    match kind {
        TaskKind::Dns => "dns"@,
        TaskKind::Http => "http"@,
        TaskKind::Tcp => "tcp"@,
        TaskKind::Ping => "ping"@,
        TaskKind::Trace => "trace"@,
    }
}

pub fn kind_label(kind: TaskKind) -> (r: &'static str)
    ensures
        r@ == label_of(kind),
{
    match kind {
        TaskKind::Dns => "dns",
        TaskKind::Http => "http",
        TaskKind::Tcp => "tcp",
        TaskKind::Ping => "ping",
        TaskKind::Trace => "trace",
    }
}

/// All kinds, in the order of their declaration.
pub open spec fn all_kinds() -> Seq<TaskKind> {
    seq![TaskKind::Dns, TaskKind::Http, TaskKind::Tcp, TaskKind::Ping, TaskKind::Trace]
}

pub fn task_kinds() -> (r: [TaskKind; 5])
    ensures
        r@ == all_kinds(),
{
    let r: [TaskKind; 5] = [
        TaskKind::Dns,
        TaskKind::Http,
        TaskKind::Tcp,
        TaskKind::Ping,
        TaskKind::Trace,
    ];
    assert(r@ =~= all_kinds());
    r
}

/// A map from task kinds to values.
#[derive(Debug, Clone)]
pub struct KindMap<V> {
    dns: Option<V>,
    http: Option<V>,
    tcp: Option<V>,
    ping: Option<V>,
    trace: Option<V>,
}

impl<V> KindMap<V> {
    closed spec fn slot(&self, kind: TaskKind) -> Option<V> {
        match kind {
            TaskKind::Dns => self.dns,
            TaskKind::Http => self.http,
            TaskKind::Tcp => self.tcp,
            TaskKind::Ping => self.ping,
            TaskKind::Trace => self.trace,
        }
    }
}

impl<V> View for KindMap<V> {
    type V = Map<TaskKind, V>;

    closed spec fn view(&self) -> Map<TaskKind, V> {
        Map::new(|kind: TaskKind| self.slot(kind) is Some, |kind: TaskKind| self.slot(kind)->0)
    }
}

impl<V> KindMap<V> {
    pub fn new() -> (r: KindMap<V>)
        ensures
            r@ == Map::<TaskKind, V>::empty(),
    {
        let r: KindMap<V> = KindMap { dns: None, http: None, tcp: None, ping: None, trace: None };
        assert(r@ =~= Map::<TaskKind, V>::empty());
        r
    }

    pub fn get(&self, kind: TaskKind) -> (r: Option<&V>)
        ensures
            match r {
                Some(v) => self@.contains_key(kind) && *v == self@[kind],
                None => !self@.contains_key(kind),
            },
    {
        match kind {
            TaskKind::Dns => self.dns.as_ref(),
            TaskKind::Http => self.http.as_ref(),
            TaskKind::Tcp => self.tcp.as_ref(),
            TaskKind::Ping => self.ping.as_ref(),
            TaskKind::Trace => self.trace.as_ref(),
        }
    }

    /// The place of the value for `kind`: empty if the map holds none.
    pub fn slot_mut(&mut self, kind: TaskKind) -> (r: &mut Option<V>)
        ensures
            *r == (if old(self)@.contains_key(kind) {
                Some(old(self)@[kind])
            } else {
                None
            }),
            final(self)@ == match *final(r) {
                Some(v) => old(self)@.insert(kind, v),
                None => old(self)@.remove(kind),
            },
    {
        match kind {
            TaskKind::Dns => &mut self.dns,
            TaskKind::Http => &mut self.http,
            TaskKind::Tcp => &mut self.tcp,
            TaskKind::Ping => &mut self.ping,
            TaskKind::Trace => &mut self.trace,
        }
    }

    pub fn insert(&mut self, kind: TaskKind, value: V)
        ensures
            final(self)@ == old(self)@.insert(kind, value),
    {
        let place: &mut Option<V> = self.slot_mut(kind);
        *place = Some(value);
    }

    /// Takes the value for `kind` out of the map.
    pub fn remove(&mut self, kind: TaskKind) -> (r: Option<V>)
        ensures
            r == (if old(self)@.contains_key(kind) {
                Some(old(self)@[kind])
            } else {
                None
            }),
            final(self)@ == old(self)@.remove(kind),
    {
        let place: &mut Option<V> = self.slot_mut(kind);
        place.take()
    }
}

impl KindMap<usize> {
    pub fn copy(&self) -> (r: KindMap<usize>)
        ensures
            r@ == self@,
    {
        let r: KindMap<usize> = KindMap {
            dns: self.dns,
            http: self.http,
            tcp: self.tcp,
            ping: self.ping,
            trace: self.trace,
        };
        assert(r@ =~= self@);
        r
    }
}

} // verus!
