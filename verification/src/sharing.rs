//! Callers of one resolver, and how they share answers.

use vstd::prelude::*;

use crate::resolver::{
    entered, kept_secs, resolve_next, FlightRole, ResolutionView, ResolveEvent, ResolveState,
    SINGLEFLIGHT_NANOS,
};

verus! {

/// An answer in the cache and the time up to which it is kept, in nanoseconds.
pub struct StoredAnswer {
    pub answer: ResolutionView,
    pub expires: int,
}

/// A caller that resolves the name with a key. `answer` is what it has found or asked for.
pub struct Caller {
    pub key: Seq<char>,
    pub state: ResolveState,
    pub answer: Option<ResolutionView>,
}

/// A resolver and its callers. Those that are yet to come wait in their first state.
pub struct Sharing {
    pub cache: Map<Seq<char>, StoredAnswer>,
    pub flights: Map<Seq<char>, u128>,
    pub callers: Map<int, Caller>,
}

/// The caller `who` does what its state asks for, at `now`. To a query the upstream server
/// replies with `reply`, or not at all.
pub struct Turn {
    pub who: int,
    pub now: u64,
    pub reply: Option<ResolutionView>,
}

/// Callers in these states ask the upstream server, or have done so and are about to leave.
pub open spec fn is_asking(state: ResolveState) -> bool {
    state == ResolveState::Query || state is Leave
}

/// The time up to which an answer that is stored at `now` is kept.
pub open spec fn kept_until(answer: ResolutionView, now: u64) -> int {
    now + kept_secs(answer.ttl_secs) * 1_000_000_000
}

impl Sharing {
    /// The answer that the cache holds under `key` at `now`, if it holds one.
    pub open spec fn cached(self, key: Seq<char>, now: u64) -> Option<ResolutionView> {
        if self.cache.contains_key(key) && now < self.cache[key].expires {
            Some(self.cache[key].answer)
        } else {
            None
        }
    }

    /// The caller `who` moves on after `event`, with `answer`.
    pub open spec fn moved(
        self,
        who: int,
        event: ResolveEvent,
        answer: Option<ResolutionView>,
    ) -> Sharing {
        let caller = self.callers[who];
        Sharing {
            callers: self.callers.insert(
                who,
                Caller { state: resolve_next(caller.state, event), answer, ..caller },
            ),
            ..self
        }
    }

    /// The resolver and its callers after a turn.
    pub open spec fn after(self, turn: Turn) -> Sharing {
        let caller = self.callers[turn.who];
        if !self.callers.contains_key(turn.who) {
            self
        } else {
            match caller.state {
                ResolveState::Lookup
                | ResolveState::LookupAgain
                | ResolveState::LookupLast => match self.cached(caller.key, turn.now) {
                    Some(answer) => self.moved(turn.who, ResolveEvent::Hit, Some(answer)),
                    None => self.moved(turn.who, ResolveEvent::Miss, caller.answer),
                },
                ResolveState::Enter => {
                    let (role, flights) = entered(self.flights, caller.key, turn.now);
                    Sharing {
                        flights,
                        ..self.moved(turn.who, ResolveEvent::Entered(role), caller.answer)
                    }
                },
                ResolveState::Await => self.moved(turn.who, ResolveEvent::Woken, caller.answer),
                ResolveState::Query => match turn.reply {
                    Some(answer) => self.moved(
                        turn.who,
                        ResolveEvent::Answered { ttl_secs: answer.ttl_secs },
                        Some(answer),
                    ),
                    None => self.moved(turn.who, ResolveEvent::Failed, None),
                },
                ResolveState::Leave { store } => {
                    let left = self.moved(turn.who, ResolveEvent::Left, caller.answer);
                    Sharing {
                        cache: match caller.answer {
                            Some(answer) if store => self.cache.insert(
                                caller.key,
                                StoredAnswer { answer, expires: kept_until(answer, turn.now) },
                            ),
                            _ => self.cache,
                        },
                        flights: self.flights.remove(caller.key),
                        ..left
                    }
                },
                ResolveState::ReturnCached | ResolveState::ReturnQueried => self,
            }
        }
    }

    /// The resolver and its callers after some turns.
    pub open spec fn after_all(self, turns: Seq<Turn>) -> Sharing
        decreases turns.len(),
    {
        if turns.len() == 0 {
            self
        } else {
            self.after_all(turns.drop_last()).after(turns.last())
        }
    }

    /// No caller with `key` but `leader` asks the upstream server.
    pub open spec fn nobody_else_asks(self, key: Seq<char>, leader: int) -> bool {
        forall|who: int| #[trigger]
            self.callers.contains_key(who) && who != leader && self.callers[who].key == key
                ==> !is_asking(self.callers[who].state)
    }

    /// No caller with `key` asks the upstream server or is about to find out whether it has to.
    pub open spec fn nobody_asks(self, key: Seq<char>) -> bool {
        forall|who: int| #[trigger]
            self.callers.contains_key(who) && self.callers[who].key == key ==> !is_asking(
                self.callers[who].state,
            ) && self.callers[who].state != ResolveState::Enter
    }
}

/// While a caller leads the resolution of a key, up to its leaving and within its time, no
/// other caller asks the upstream server for that key, whatever turns the callers take. When
/// the leader starts, no earlier leader may be late: its leaving would end the new leader's
/// resolution too.
pub proof fn law_one_query_at_a_time(
    sharing: Sharing,
    leader: int,
    start: u64,
    turns: Seq<Turn>,
)
    requires
        sharing.callers.contains_key(leader),
        sharing.callers[leader].state == ResolveState::Enter,
        entered(sharing.flights, sharing.callers[leader].key, start).0 == FlightRole::Lead,
        sharing.nobody_else_asks(sharing.callers[leader].key, leader),
        forall|i: int|
            0 <= i < turns.len() ==> start <= (#[trigger] turns[i]).now < start
                + SINGLEFLIGHT_NANOS,
        is_asking(
            sharing.after(Turn { who: leader, now: start, reply: None }).after_all(
                turns,
            ).callers[leader].state,
        ),
    ensures
        sharing.after(Turn { who: leader, now: start, reply: None }).after_all(
            turns,
        ).nobody_else_asks(sharing.callers[leader].key, leader),
{
    let key = sharing.callers[leader].key;
    let during = sharing.after(Turn { who: leader, now: start, reply: None });
    assert(leads(during, key, leader, start));
    lemma_leads(during, key, leader, start, turns);
}

/// The leader asks and nobody else does, or it has left.
spec fn leads(sharing: Sharing, key: Seq<char>, leader: int, start: u64) -> bool {
    &&& sharing.callers.contains_key(leader)
    &&& sharing.callers[leader].key == key
    &&& if is_asking(sharing.callers[leader].state) {
        &&& sharing.flights.contains_key(key)
        &&& sharing.flights[key] == start + SINGLEFLIGHT_NANOS
        &&& sharing.nobody_else_asks(key, leader)
    } else {
        ||| sharing.callers[leader].state == ResolveState::LookupLast
        ||| sharing.callers[leader].state == ResolveState::ReturnCached
        ||| sharing.callers[leader].state == ResolveState::ReturnQueried
    }
}

proof fn lemma_leads(
    sharing: Sharing,
    key: Seq<char>,
    leader: int,
    start: u64,
    turns: Seq<Turn>,
)
    requires
        leads(sharing, key, leader, start),
        forall|i: int|
            0 <= i < turns.len() ==> start <= (#[trigger] turns[i]).now < start
                + SINGLEFLIGHT_NANOS,
    ensures
        leads(sharing.after_all(turns), key, leader, start),
    decreases turns.len(),
{
    if turns.len() > 0 {
        let init = turns.drop_last();
        assert forall|i: int| 0 <= i < init.len() implies start <= (#[trigger] init[i]).now < start
            + SINGLEFLIGHT_NANOS by {
            assert(init[i] == turns[i]);
        }
        lemma_leads(sharing, key, leader, start, init);
        assert(turns.last() == turns[turns.len() - 1]);
        lemma_leads_once(sharing.after_all(init), key, leader, start, turns.last());
    }
}

proof fn lemma_leads_once(
    sharing: Sharing,
    key: Seq<char>,
    leader: int,
    start: u64,
    turn: Turn,
)
    requires
        leads(sharing, key, leader, start),
        start <= turn.now < start + SINGLEFLIGHT_NANOS,
    ensures
        leads(sharing.after(turn), key, leader, start),
{
    let after = sharing.after(turn);
    if is_asking(after.callers[leader].state) {
        assert forall|who: int| #[trigger]
            after.callers.contains_key(who) && who != leader && after.callers[who].key
                == key implies !is_asking(after.callers[who].state) by {
            assert(sharing.callers.contains_key(who));
        }
    }
}

/// Once a leader has stored its answer, all callers with its key that look for one get that
/// answer for as long as it is kept, and nobody asks the upstream server again, whatever turns
/// the callers take. A caller that found nothing before the answer was stored and has not yet
/// joined the leader is left out: it comes too late to join, and asks again.
pub proof fn law_stored_answer_is_shared(
    sharing: Sharing,
    leader: int,
    now: u64,
    turns: Seq<Turn>,
    who: int,
)
    requires
        sharing.callers.contains_key(leader),
        sharing.callers[leader].state == (ResolveState::Leave { store: true }),
        sharing.callers[leader].answer is Some,
        sharing.nobody_else_asks(sharing.callers[leader].key, leader),
        forall|other: int| #[trigger]
            sharing.callers.contains_key(other) && sharing.callers[other].key
                == sharing.callers[leader].key ==> sharing.callers[other].state
                != ResolveState::Enter,
        forall|i: int|
            0 <= i < turns.len() ==> now <= (#[trigger] turns[i]).now < kept_until(
                sharing.callers[leader].answer->0,
                now,
            ),
        sharing.callers.contains_key(who),
        sharing.callers[who].key == sharing.callers[leader].key,
        sharing.callers[who].state != ResolveState::ReturnCached,
    ensures
        ({
            let key = sharing.callers[leader].key;
            let after = sharing.after(Turn { who: leader, now, reply: None }).after_all(turns);
            &&& after.nobody_asks(key)
            &&& after.callers.contains_key(who)
            &&& after.callers[who].state == ResolveState::ReturnCached ==> after.callers[who].answer
                == sharing.callers[leader].answer
            &&& after.callers[who].state == ResolveState::ReturnQueried
                ==> sharing.callers[who].state == ResolveState::ReturnQueried
        }),
{
    let key = sharing.callers[leader].key;
    let answer = sharing.callers[leader].answer->0;
    let left = sharing.after(Turn { who: leader, now, reply: None });
    assert(left.callers[leader].state == ResolveState::LookupLast);
    assert forall|other: int| #[trigger]
        left.callers.contains_key(other) && left.callers[other].key == key implies !is_asking(
        left.callers[other].state,
    ) && left.callers[other].state != ResolveState::Enter by {
        assert(sharing.callers.contains_key(other));
    }
    lemma_shared(left, key, answer, kept_until(answer, now), turns, who);
}

/// The answer is in the cache, nobody asks, and the caller `who` gets the answer, unless it had
/// returned before.
spec fn shares(
    sharing: Sharing,
    key: Seq<char>,
    answer: ResolutionView,
    expires: int,
    who: int,
    returned: bool,
) -> bool {
    &&& sharing.cache.contains_key(key)
    &&& sharing.cache[key] == (StoredAnswer { answer, expires })
    &&& sharing.nobody_asks(key)
    &&& sharing.callers.contains_key(who)
    &&& sharing.callers[who].key == key
    &&& sharing.callers[who].state == ResolveState::ReturnCached ==> sharing.callers[who].answer
        == Some(answer)
    &&& (sharing.callers[who].state == ResolveState::ReturnQueried) == returned
}

proof fn lemma_shared(
    sharing: Sharing,
    key: Seq<char>,
    answer: ResolutionView,
    expires: int,
    turns: Seq<Turn>,
    who: int,
)
    requires
        shares(
            sharing,
            key,
            answer,
            expires,
            who,
            sharing.callers[who].state == ResolveState::ReturnQueried,
        ),
        forall|i: int| 0 <= i < turns.len() ==> (#[trigger] turns[i]).now < expires,
    ensures
        shares(
            sharing.after_all(turns),
            key,
            answer,
            expires,
            who,
            sharing.callers[who].state == ResolveState::ReturnQueried,
        ),
    decreases turns.len(),
{
    if turns.len() > 0 {
        let init = turns.drop_last();
        assert forall|i: int| 0 <= i < init.len() implies (#[trigger] init[i]).now < expires by {
            assert(init[i] == turns[i]);
        }
        lemma_shared(sharing, key, answer, expires, init, who);
        assert(turns.last() == turns[turns.len() - 1]);
        let before = sharing.after_all(init);
        let after = before.after(turns.last());
        assert forall|other: int| #[trigger]
            after.callers.contains_key(other) && after.callers[other].key == key implies !is_asking(
            after.callers[other].state,
        ) && after.callers[other].state != ResolveState::Enter by {
            assert(before.callers.contains_key(other));
        }
    }
}

/// Once an answer is no longer kept and nobody resolves its key, the next caller asks the
/// upstream server again.
pub proof fn law_expired_answer_is_asked_for_again(
    sharing: Sharing,
    who: int,
    now: u64,
    later: u64,
)
    requires
        sharing.callers.contains_key(who),
        sharing.callers[who].state == ResolveState::Lookup,
        sharing.cached(sharing.callers[who].key, now) is None,
        entered(sharing.flights, sharing.callers[who].key, later).0 == FlightRole::Lead,
    ensures
        sharing.after(Turn { who, now, reply: None }).after(
            Turn { who, now: later, reply: None },
        ).callers[who].state == ResolveState::Query,
{
}

} // verus!
