//! The agent's loop: it registers, claims leases and hands them on.

use vstd::prelude::*;

verus! {

/// Pause after a claim that brought no lease, in nanoseconds.
pub const IDLE_PAUSE_NANOS: u64 = 250_000_000;

/// Pause after a claim that failed, in nanoseconds.
pub const ERROR_PAUSE_NANOS: u64 = 1_000_000_000;

/// Time between heartbeats, in nanoseconds.
pub const HEARTBEAT_NANOS: u64 = 5_000_000_000;

/// What the agent does next.
#[derive(Debug, Clone, Copy, PartialEq, Eq, Structural)]
pub enum AgentStep {
    /// Find out whether it is registered.
    Start,
    /// Register.
    Register,
    /// Look whether it is to stop and whether the queues are full.
    Look,
    /// Wait until the queues may have room again.
    AwaitRoom,
    /// Claim leases.
    Claim,
    /// Pause for some nanoseconds.
    Pause(u64),
    /// Track the next lease, of which `left` are not handed on yet.
    Track { left: usize },
    /// Hand the lease on.
    Dispatch { left: usize },
    /// No longer track the lease that could not be handed on.
    Forget,
    Stop,
}

/// What came of it.
#[derive(Debug, Clone, Copy, PartialEq, Eq, Structural)]
pub enum AgentEvent {
    /// Whether the agent is registered.
    Known(bool),
    /// Whether the registration succeeded.
    Registered(bool),
    Looked { stopping: bool, full: bool },
    /// Whether the queues are full.
    RoomChanged { full: bool },
    /// How many leases were claimed.
    Claimed(usize),
    ClaimFailed,
    Paused,
    /// The lease is under observation.
    Followed,
    Dispatched,
    DispatchFailed,
    Forgotten,
    /// The agent is to stop, or something that it needs is gone.
    Interrupted,
}

/// What the agent does after `event` came of `step`. Events that do not belong to a step
/// change nothing.
pub open spec fn agent_next(step: AgentStep, event: AgentEvent) -> AgentStep {
    match (step, event) {
        (AgentStep::Start, AgentEvent::Known(true)) => AgentStep::Look,
        (AgentStep::Start, AgentEvent::Known(false)) => AgentStep::Register,
        (AgentStep::Register, AgentEvent::Registered(true)) => AgentStep::Look,
        (AgentStep::Register, AgentEvent::Registered(false)) => AgentStep::Stop,
        (AgentStep::Look, AgentEvent::Looked { stopping, full }) => if stopping {
            AgentStep::Stop
        } else if full {
            AgentStep::AwaitRoom
        } else {
            AgentStep::Claim
        },
        (AgentStep::AwaitRoom, AgentEvent::RoomChanged { full }) => if full {
            AgentStep::AwaitRoom
        } else {
            AgentStep::Claim
        },
        (AgentStep::AwaitRoom, AgentEvent::Interrupted) => AgentStep::Stop,
        (AgentStep::Claim, AgentEvent::Claimed(n)) => if n == 0 {
            AgentStep::Pause(IDLE_PAUSE_NANOS)
        } else {
            AgentStep::Track { left: n }
        },
        (AgentStep::Claim, AgentEvent::ClaimFailed) => AgentStep::Pause(ERROR_PAUSE_NANOS),
        (AgentStep::Claim, AgentEvent::Interrupted) => AgentStep::Stop,
        (AgentStep::Pause(_), AgentEvent::Paused) => AgentStep::Look,
        (AgentStep::Pause(_), AgentEvent::Interrupted) => AgentStep::Stop,
        (AgentStep::Track { left }, AgentEvent::Followed) => AgentStep::Dispatch { left },
        (AgentStep::Track { .. }, AgentEvent::Interrupted) => AgentStep::Stop,
        (AgentStep::Dispatch { left }, AgentEvent::Dispatched) => if left > 1 {
            AgentStep::Track { left: (left - 1) as usize }
        } else {
            AgentStep::Look
        },
        (AgentStep::Dispatch { .. }, AgentEvent::DispatchFailed) => AgentStep::Forget,
        (AgentStep::Forget, AgentEvent::Forgotten) => AgentStep::Stop,
        _ => step,
    }
}

impl AgentStep {
    /// Moves on after `event`.
    pub fn next(self, event: AgentEvent) -> (r: AgentStep)
        ensures
            r == agent_next(self, event),
    {
        match (self, event) {
            (AgentStep::Start, AgentEvent::Known(known)) => if known {
                AgentStep::Look
            } else {
                AgentStep::Register
            },
            (AgentStep::Register, AgentEvent::Registered(succeeded)) => if succeeded {
                AgentStep::Look
            } else {
                AgentStep::Stop
            },
            (AgentStep::Look, AgentEvent::Looked { stopping, full }) => if stopping {
                AgentStep::Stop
            } else if full {
                AgentStep::AwaitRoom
            } else {
                AgentStep::Claim
            },
            (AgentStep::AwaitRoom, AgentEvent::RoomChanged { full }) => if full {
                AgentStep::AwaitRoom
            } else {
                AgentStep::Claim
            },
            (AgentStep::Claim, AgentEvent::Claimed(n)) => if n == 0 {
                AgentStep::Pause(IDLE_PAUSE_NANOS)
            } else {
                AgentStep::Track { left: n }
            },
            (AgentStep::Claim, AgentEvent::ClaimFailed) => AgentStep::Pause(ERROR_PAUSE_NANOS),
            (AgentStep::Pause(_), AgentEvent::Paused) => AgentStep::Look,
            (AgentStep::Track { left }, AgentEvent::Followed) => AgentStep::Dispatch { left },
            (AgentStep::Dispatch { left }, AgentEvent::Dispatched) => if left > 1 {
                AgentStep::Track { left: left - 1 }
            } else {
                AgentStep::Look
            },
            (AgentStep::Dispatch { .. }, AgentEvent::DispatchFailed) => AgentStep::Forget,
            (AgentStep::Forget, AgentEvent::Forgotten) => AgentStep::Stop,
            (AgentStep::AwaitRoom, AgentEvent::Interrupted) => AgentStep::Stop,
            (AgentStep::Claim, AgentEvent::Interrupted) => AgentStep::Stop,
            (AgentStep::Pause(_), AgentEvent::Interrupted) => AgentStep::Stop,
            (AgentStep::Track { .. }, AgentEvent::Interrupted) => AgentStep::Stop,
            _ => self,
        }
    }
}

/// The agent claims leases only after it saw that the queues have room.
pub proof fn law_claims_only_with_room(step: AgentStep, event: AgentEvent)
    requires
        step != AgentStep::Claim,
        agent_next(step, event) == AgentStep::Claim,
    ensures
        event == (AgentEvent::Looked { stopping: false, full: false })
            || event == (AgentEvent::RoomChanged { full: false }),
{
}

/// A lease is handed on only after it is tracked.
pub proof fn law_dispatch_follows_tracking(step: AgentStep, event: AgentEvent)
    requires
        !(step is Dispatch),
        agent_next(step, event) is Dispatch,
    ensures
        step is Track,
        event == AgentEvent::Followed,
{
}

/// What follows `steps` events after a batch of leases was claimed, if all goes well.
pub open spec fn after_batch(left: usize, handed: nat) -> AgentStep
    decreases handed,
{
    if handed == 0 {
        AgentStep::Track { left }
    } else {
        agent_next(
            agent_next(after_batch(left, (handed - 1) as nat), AgentEvent::Followed),
            AgentEvent::Dispatched,
        )
    }
}

/// Every lease of a batch is handed on before the agent claims again.
pub proof fn law_batch_is_handed_on(n: usize, handed: nat)
    requires
        n > 0,
        handed <= n,
    ensures
        after_batch(n, handed) == (if handed < n {
            AgentStep::Track { left: (n - handed) as usize }
        } else {
            AgentStep::Look
        }),
    decreases handed,
{
    if handed > 0 {
        law_batch_is_handed_on(n, (handed - 1) as nat);
    }
}

/// Whatever it waits for, an agent that is interrupted stops, and having stopped it stays so.
pub proof fn law_interrupted_agent_stops(step: AgentStep, event: AgentEvent)
    ensures
        step is AwaitRoom || step is Claim || step is Pause || step is Track ==> agent_next(
            step,
            AgentEvent::Interrupted,
        ) is Stop,
        agent_next(AgentStep::Stop, event) is Stop,
{
}

/// An agent registers once unless it is known, and does nothing else before it is.
pub proof fn law_agent_registers_first()
    ensures
        agent_next(AgentStep::Start, AgentEvent::Known(true)) is Look,
        agent_next(AgentStep::Start, AgentEvent::Known(false)) is Register,
        agent_next(AgentStep::Register, AgentEvent::Registered(true)) is Look,
        agent_next(AgentStep::Register, AgentEvent::Registered(false)) is Stop,
{
}

/// An agent that found nothing to do, or could not ask, pauses and looks again. One that found leases
/// takes on all of them.
pub proof fn law_agent_pauses_between_claims(n: usize, nanos: u64)
    ensures
        agent_next(AgentStep::Claim, AgentEvent::Claimed(0)) == AgentStep::Pause(250_000_000),
        agent_next(AgentStep::Claim, AgentEvent::ClaimFailed) == AgentStep::Pause(1_000_000_000),
        n > 0 ==> agent_next(AgentStep::Claim, AgentEvent::Claimed(n)) == (AgentStep::Track {
            left: n,
        }),
        agent_next(AgentStep::Pause(nanos), AgentEvent::Paused) is Look,
{
}

/// An agent claims when there is room, waits when there is none, and stops when it is told to.
pub proof fn law_agent_waits_for_room(full: bool)
    ensures
        agent_next(AgentStep::Look, AgentEvent::Looked { stopping: true, full }) is Stop,
        agent_next(AgentStep::Look, AgentEvent::Looked { stopping: false, full: true })
            is AwaitRoom,
        agent_next(AgentStep::Look, AgentEvent::Looked { stopping: false, full: false }) is Claim,
        agent_next(AgentStep::AwaitRoom, AgentEvent::RoomChanged { full: true }) is AwaitRoom,
        agent_next(AgentStep::AwaitRoom, AgentEvent::RoomChanged { full: false }) is Claim,
{
}

/// A lease that could not be handed on is forgotten, and the agent stops.
pub proof fn law_lost_lease_is_forgotten(left: usize)
    ensures
        agent_next(AgentStep::Dispatch { left }, AgentEvent::DispatchFailed) is Forget,
        agent_next(AgentStep::Forget, AgentEvent::Forgotten) is Stop,
{
}

} // verus!
