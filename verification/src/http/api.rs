//! Endpoints of the control plane, their limits and their decisions.

use vstd::prelude::*;
use vstd::string::*;

use crate::control_plane::RegisterRequest;
use crate::double::{
    lemma_order, lemma_plus, lemma_value_positive, lemma_whole_less_one, lemma_whole_one, whole,
    Number,
};
use crate::http::error::{rate_limit_answer, Answer, ApiError, FORBIDDEN, NOT_FOUND};
use crate::nearness::{lemma_near_bounds, lemma_near_of_close, lemma_share_near, units};
use crate::runtime::middleware::{header_text, is_header_text, text_of};
use crate::runtime::rate_limit::{
    checked, law_patient_client_is_served, lemma_empty_bucket, lemma_refilled_number,
    lemma_tolerance, share_of, tolerance, window_of, RateLimitPolicy, SharedRateLimiter,
};
use crate::text::concat2;

verus! {

/// What the control plane offers.
#[derive(Debug, Clone, Copy, PartialEq, Eq, Structural)]
pub enum Endpoint {
    Register,
    Heartbeat,
    Claim,
    Extend,
    Report,
    Metrics,
    Config,
}

/// The limit of an endpoint.
pub open spec fn limit_of(endpoint: Endpoint) -> RateLimitPolicy {
    let minute = 60_000_000_000u64;
    match endpoint {
        Endpoint::Register => RateLimitPolicy {
            capacity: 1,
            burst: 1,
            interval: 600_000_000_000,
        },
        Endpoint::Heartbeat => RateLimitPolicy { capacity: 6, burst: 3, interval: minute },
        Endpoint::Claim => RateLimitPolicy { capacity: 12, burst: 6, interval: minute },
        Endpoint::Extend => RateLimitPolicy { capacity: 30, burst: 10, interval: minute },
        Endpoint::Report => RateLimitPolicy { capacity: 12, burst: 6, interval: minute },
        Endpoint::Metrics => RateLimitPolicy { capacity: 60, burst: 10, interval: minute },
        Endpoint::Config => RateLimitPolicy {
            capacity: 6,
            burst: 2,
            interval: 3_600_000_000_000,
        },
    }
}

/// The name of an endpoint.
pub open spec fn name_of(endpoint: Endpoint) -> Seq<char> {
    match endpoint {
        Endpoint::Register => "register"@,
        Endpoint::Heartbeat => "heartbeat"@,
        Endpoint::Claim => "claim"@,
        Endpoint::Extend => "extend"@,
        Endpoint::Report => "report"@,
        Endpoint::Metrics => "metrics"@,
        Endpoint::Config => "config"@,
    }
}

impl Endpoint {
    /// The limit on requests.
    pub fn policy(self) -> (r: RateLimitPolicy)
        ensures
            r == limit_of(self),
    {
        let minute: u64 = 60_000_000_000;
        match self {
            Endpoint::Register => RateLimitPolicy {
                capacity: 1,
                burst: 1,
                interval: 600_000_000_000,
            },
            Endpoint::Heartbeat => RateLimitPolicy { capacity: 6, burst: 3, interval: minute },
            Endpoint::Claim => RateLimitPolicy { capacity: 12, burst: 6, interval: minute },
            Endpoint::Extend => RateLimitPolicy { capacity: 30, burst: 10, interval: minute },
            Endpoint::Report => RateLimitPolicy { capacity: 12, burst: 6, interval: minute },
            Endpoint::Metrics => RateLimitPolicy { capacity: 60, burst: 10, interval: minute },
            Endpoint::Config => RateLimitPolicy {
                capacity: 6,
                burst: 2,
                interval: 3_600_000_000_000,
            },
        }
    }

    pub fn name(self) -> (r: &'static str)
        ensures
            r@ == name_of(self),
    {
        match self {
            Endpoint::Register => "register",
            Endpoint::Heartbeat => "heartbeat",
            Endpoint::Claim => "claim",
            Endpoint::Extend => "extend",
            Endpoint::Report => "report",
            Endpoint::Metrics => "metrics",
            Endpoint::Config => "config",
        }
    }

    /// Where the endpoint is found, whether it is read rather than written to, and whether the
    /// agent must prove who it is and is limited by that.
    pub fn route(self) -> (r: Route)
        ensures
            r.path@ == "/"@ + name_of(self),
            r.reads == (self == Endpoint::Config),
            r.protected == (self != Endpoint::Register),
    {
        proof {
            reveal_strlit("/");
            reveal_strlit("register");
            reveal_strlit("heartbeat");
            reveal_strlit("claim");
            reveal_strlit("extend");
            reveal_strlit("report");
            reveal_strlit("metrics");
            reveal_strlit("config");
            reveal_strlit("/register");
            reveal_strlit("/heartbeat");
            reveal_strlit("/claim");
            reveal_strlit("/extend");
            reveal_strlit("/report");
            reveal_strlit("/metrics");
            reveal_strlit("/config");
            assert("/register"@ =~= "/"@ + "register"@);
            assert("/heartbeat"@ =~= "/"@ + "heartbeat"@);
            assert("/claim"@ =~= "/"@ + "claim"@);
            assert("/extend"@ =~= "/"@ + "extend"@);
            assert("/report"@ =~= "/"@ + "report"@);
            assert("/metrics"@ =~= "/"@ + "metrics"@);
            assert("/config"@ =~= "/"@ + "config"@);
        }
        match self {
            Endpoint::Register => Route { path: "/register", reads: false, protected: false },
            Endpoint::Heartbeat => Route { path: "/heartbeat", reads: false, protected: true },
            Endpoint::Claim => Route { path: "/claim", reads: false, protected: true },
            Endpoint::Extend => Route { path: "/extend", reads: false, protected: true },
            Endpoint::Report => Route { path: "/report", reads: false, protected: true },
            Endpoint::Metrics => Route { path: "/metrics", reads: false, protected: true },
            Endpoint::Config => Route { path: "/config", reads: true, protected: true },
        }
    }
}

/// Where an endpoint is found and how it is used.
#[derive(Debug, Clone, Copy)]
pub struct Route {
    pub path: &'static str,
    pub reads: bool,
    pub protected: bool,
}

/// The client that a registration counts for: the host name that it gives, or the address
/// that it comes from, if that is known.
pub open spec fn registrant(request: RegisterRequest, peer: Option<&str>) -> Seq<char> {
    "register:"@ + match request.hostname {
        Some(name) => name@,
        None => match peer {
            Some(address) => address@,
            None => "unknown"@,
        },
    }
}

/// The client that a registration counts for.
pub fn register_key(request: &RegisterRequest, peer: Option<&str>) -> (r: String)
    ensures
        r@ == registrant(*request, peer),
{
    match &request.hostname {
        Some(name) => concat2("register:", name.as_str()),
        None => match peer {
            Some(address) => concat2("register:", address),
            None => concat2("register:", "unknown"),
        },
    }
}

/// Decides at `now` whether a registration is over the limit.
pub fn admit_registration(
    limiter: &mut SharedRateLimiter,
    request: &RegisterRequest,
    peer: Option<&str>,
    now: u64,
) -> (r: Result<(), ApiError>)
    requires
        old(limiter).wf(),
    ensures
        final(limiter).wf(),
        ({
            let key = registrant(*request, peer);
            let (result, window) = checked(
                window_of(old(limiter)@, key),
                limit_of(Endpoint::Register),
                now,
            );
            &&& final(limiter)@ == old(limiter)@.insert(key, window)
            &&& match result {
                Ok(_) => r is Ok,
                Err(e) => r is Err && r->Err_0.answer() == rate_limit_answer("register"@)
                    && r->Err_0.retry_after == Some(e.retry_after),
            }
        }),
{
    let key: String = register_key(request, peer);
    let policy: RateLimitPolicy = Endpoint::Register.policy();
    match limiter.check(key.as_str(), &policy, now) {
        Ok(_) => Ok(()),
        Err(e) => Err(ApiError::rate_limited("register", e.retry_after)),
    }
}

/// The answer to an agent that speaks for another one.
pub open spec fn mismatch_answer() -> Answer {
    (FORBIDDEN, "ERR_FORBIDDEN"@, "agent identifier mismatch"@, false)
}

/// Refuses a request of the agent `identity` that names another agent.
pub fn check_agent(named: u64, identity: u64) -> (r: Result<(), ApiError>)
    ensures
        if named == identity {
            r is Ok
        } else {
            r is Err && r->Err_0.answer() == mismatch_answer() && r->Err_0.retry_after is None
        },
{
    if named == identity {
        Ok(())
    } else {
        Err(ApiError::new(FORBIDDEN, "ERR_FORBIDDEN", "agent identifier mismatch", false))
    }
}

/// `text` without the quotes that it starts and ends with.
pub open spec fn unquoted(text: Seq<char>) -> Seq<char>
    decreases text.len(),
{
    if text.len() > 0 && text[0] == '"' {
        unquoted(text.skip(1))
    } else if text.len() > 0 && text.last() == '"' {
        unquoted(text.drop_last())
    } else {
        text
    }
}

/// The answer to a request for the configuration.
#[derive(Debug)]
pub enum ConfigAnswer {
    NotFound(ApiError),
    /// The client has this revision already.
    NotModified,
    /// The configuration is sent, with its revision as a header if it can be one.
    Send { tagged: bool },
}

/// The answer if there is no configuration.
pub open spec fn no_config_answer() -> Answer {
    (NOT_FOUND, "ERR_NOT_FOUND"@, "configuration bundle not found"@, true)
}

/// Calls `HeaderValue::from_str`, which accepts a text if all its bytes are at least 32 and
/// not 127, or tabs.
#[verifier::external_body]
fn accepts_header(text: &str) -> (r: bool)
    ensures
        r == can_be_header(text@),
{
    http::HeaderValue::from_str(text).is_ok()
}

/// The text can be the value of a header.
pub open spec fn can_be_header(text: Seq<char>) -> bool {
    forall|i: int|
        0 <= i < vstd::utf8::encode_utf8(text).len() ==> is_header_byte(
            #[trigger] vstd::utf8::encode_utf8(text)[i],
        )
}

/// The byte can stand in the value of a header.
pub open spec fn is_header_byte(b: u8) -> bool {
    (b >= 32 && b != 127) || b == 9
}

fn strip_quotes(text: &str) -> (r: String)
    requires
        text.is_ascii(),
    ensures
        r@ == unquoted(text@),
{
    let total: usize = text.unicode_len();
    let mut start: usize = 0;
    assert(text@.subrange(0, total as int) =~= text@);
    while start < total && text.get_char(start) == '"'
        invariant
            start <= total == text@.len(),
            unquoted(text@) == unquoted(text@.subrange(start as int, total as int)),
        decreases total - start,
    {
        let ghost part = text@.subrange(start as int, total as int);
        assert(part.skip(1) =~= text@.subrange(start + 1, total as int));
        assert(part[0] == text@[start as int]);
        start = start + 1;
    }
    let mut end: usize = total;
    while end > start && text.get_char(end - 1) == '"'
        invariant
            start <= end <= total == text@.len(),
            end < total ==> start < total,
            start < total ==> text@[start as int] != '"',
            unquoted(text@) == unquoted(text@.subrange(start as int, end as int)),
        decreases end - start,
    {
        let ghost part = text@.subrange(start as int, end as int);
        assert(part.drop_last() =~= text@.subrange(start as int, end - 1));
        assert(part.last() == text@[end - 1]);
        assert(part[0] == text@[start as int]);
        end = end - 1;
    }
    proof {
        let part = text@.subrange(start as int, end as int);
        if part.len() > 0 {
            assert(part[0] == text@[start as int]);
            assert(part.last() == text@[end - 1]);
        }
        assert(unquoted(part) == part);
    }
    text.substring_ascii(start, end).to_string()
}

/// The client names the revision that it has: it is the text of the header without quotes.
pub open spec fn names_revision(header: Option<Seq<u8>>, revision: Seq<char>) -> bool {
    match header {
        Some(bytes) => is_header_text(bytes) && unquoted(text_of(bytes)) == revision,
        None => false,
    }
}

/// Answers a request for the configuration, of which there may be a revision.
pub fn config_answer(revision: Option<&str>, if_none_match: Option<&[u8]>) -> (r: ConfigAnswer)
    ensures
        match revision {
            None => r is NotFound && r->NotFound_0.answer() == no_config_answer()
                && r->NotFound_0.retry_after is None,
            Some(current) => r == if names_revision(
                match if_none_match {
                    Some(bytes) => Some(bytes@),
                    None => None,
                },
                current@,
            ) {
                ConfigAnswer::NotModified
            } else {
                ConfigAnswer::Send { tagged: can_be_header(current@) }
            },
        },
{
    let current: &str = match revision {
        None => {
            return ConfigAnswer::NotFound(
                ApiError::new(NOT_FOUND, "ERR_NOT_FOUND", "configuration bundle not found", true),
            );
        },
        Some(current) => current,
    };
    if let Some(bytes) = if_none_match {
        if let Some(text) = header_text(bytes) {
            let tag: String = strip_quotes(text.as_str());
            if tag == current.to_string() {
                return ConfigAnswer::NotModified;
            }
        }
    }
    ConfigAnswer::Send { tagged: accepts_header(current) }
}

/// Every endpoint allows at least one request at once, and a burst is never more than what
/// is allowed per interval.
pub proof fn law_limits_allow_a_burst(endpoint: Endpoint)
    ensures
        1 <= limit_of(endpoint).burst <= limit_of(endpoint).capacity,
        limit_of(endpoint).interval > 0,
{
}

/// A host that registers is served at once, is refused when it comes back within ten minutes,
/// and is served again after them. Within the last 600 nanoseconds the tolerance may let it
/// pass.
pub proof fn law_one_registration_in_ten_minutes(now: u64, later: u64)
    requires
        now <= later,
    ensures
        ({
            let first = checked(None, limit_of(Endpoint::Register), now);
            let second = checked(Some(first.1), limit_of(Endpoint::Register), later);
            &&& first.0 is Ok
            &&& later - now < 600_000_000_000 - 600 ==> second.0 is Err
            &&& later - now >= 600_000_000_000 ==> second.0 is Ok
        }),
{
    let policy = limit_of(Endpoint::Register);
    let first = checked(None, policy, now).1;
    let elapsed = later - now;
    lemma_whole_less_one(1);
    lemma_empty_bucket();
    assert(first.tokens == Number::zero());
    if elapsed >= 600_000_000_000 {
        law_patient_client_is_served(first, policy, later);
    } else if 0 < elapsed < 600_000_000_000 - 600 {
        let share = share_of(policy, elapsed);
        let x = first.refilled(policy, later).tokens;
        let t = tolerance();
        let sum = x.plus(t);
        let interval = 600_000_000_000 as real;
        lemma_share_near(1, 600_000_000_000, elapsed);
        lemma_near_bounds(share.value() * interval, elapsed as real, units(906), interval);
        lemma_tolerance();
        lemma_whole_one();
        lemma_refilled_number(first, policy, later);
        lemma_value_positive(x);
        lemma_order(share, whole(1));
        lemma_order(whole(1), x);
        lemma_plus(x, t);
        lemma_near_of_close(sum.value(), x.value() + t.value());
        lemma_near_bounds(sum.value(), x.value() + t.value(), units(1), 2 as real);
        lemma_order(whole(1), sum);
    }
}

/// Quotes are taken off both ends of a text, all of them and nothing else.
pub proof fn law_quotes_are_stripped(text: Seq<char>)
    ensures
        ({
            let inner = unquoted(text);
            &&& inner.len() > 0 ==> inner.first() != '"' && inner.last() != '"'
            &&& exists|a: int|
                #![trigger text.subrange(a, a + inner.len())]
                {
                    &&& 0 <= a && a + inner.len() <= text.len()
                    &&& text.subrange(a, a + inner.len()) == inner
                    &&& forall|i: int| 0 <= i < a ==> #[trigger] text[i] == '"'
                    &&& forall|i: int| a + inner.len() <= i < text.len() ==> #[trigger] text[i] == '"'
                }
        }),
{
    let a = lemma_unquoted(text);
    let inner = unquoted(text);
    assert(text.subrange(a, a + inner.len()) =~= inner);
}

proof fn lemma_unquoted(text: Seq<char>) -> (a: int)
    ensures
        0 <= a && a + unquoted(text).len() <= text.len(),
        unquoted(text).len() > 0 ==> unquoted(text).first() != '"' && unquoted(text).last() != '"',
        forall|i: int| 0 <= i < unquoted(text).len() ==> #[trigger] unquoted(text)[i] == text[a + i],
        forall|i: int| 0 <= i < a ==> #[trigger] text[i] == '"',
        forall|i: int| a + unquoted(text).len() <= i < text.len() ==> #[trigger] text[i] == '"',
    decreases text.len(),
{
    if text.len() > 0 && text[0] == '"' {
        let rest = text.skip(1);
        let b = lemma_unquoted(rest);
        assert forall|i: int| 0 <= i < b + 1 implies #[trigger] text[i] == '"' by {
            if i > 0 {
                assert(rest[i - 1] == text[i]);
            }
        }
        assert forall|i: int| b + 1 + unquoted(text).len() <= i < text.len() implies
            #[trigger] text[i] == '"' by {
            assert(rest[i - 1] == text[i]);
        }
        b + 1
    } else if text.len() > 0 && text.last() == '"' {
        let rest = text.drop_last();
        let b = lemma_unquoted(rest);
        assert forall|i: int| 0 <= i < b implies #[trigger] text[i] == '"' by {
            assert(rest[i] == text[i]);
        }
        assert forall|i: int| b + unquoted(text).len() <= i < text.len() implies
            #[trigger] text[i] == '"' by {
            if i < rest.len() {
                assert(rest[i] == text[i]);
            }
        }
        b
    } else {
        0
    }
}

/// Each host has its own limit on registrations, and a named host the same from every address.
pub proof fn law_hosts_are_limited_apart(
    a: RegisterRequest,
    b: RegisterRequest,
    from_a: Option<&str>,
    from_b: Option<&str>,
)
    requires
        a.hostname is Some && b.hostname is Some,
    ensures
        registrant(a, from_a) == registrant(b, from_b) <==> a.hostname->0@ == b.hostname->0@,
{
    let head = "register:"@;
    let x = registrant(a, from_a);
    let y = registrant(b, from_b);
    assert(x.skip(head.len() as int) =~= a.hostname->0@);
    assert(y.skip(head.len() as int) =~= b.hostname->0@);
}

/// A host without a name is known by its address.
pub proof fn law_nameless_hosts_are_limited_by_address(
    a: RegisterRequest,
    b: RegisterRequest,
    from_a: &str,
    from_b: &str,
)
    requires
        a.hostname is None && b.hostname is None,
    ensures
        registrant(a, Some(from_a)) == registrant(b, Some(from_b)) <==> from_a@ == from_b@,
{
    let head = "register:"@;
    let x = registrant(a, Some(from_a));
    let y = registrant(b, Some(from_b));
    assert(x.skip(head.len() as int) =~= from_a@);
    assert(y.skip(head.len() as int) =~= from_b@);
}

} // verus!
