//! Token buckets.

use vstd::hash_map::StringHashMap;
use vstd::prelude::*;
use vstd::string::*;

use crate::double::{
    capped_ceiling, ceiling, close, lemma_ceiling, lemma_ceiling_below, lemma_minus, lemma_minus_shrinks, lemma_nearest_near,
    lemma_order, lemma_over, lemma_plus, lemma_product_order, lemma_real_product, lemma_regroup, lemma_spread,
    lemma_times, lemma_value_positive,
    lemma_whole_exact, lemma_whole_less_one, lemma_whole_one, nearest, seconds, seconds_of,
    whole, Double, Number,
};
use crate::nearness::{
    billion, lemma_commute, lemma_distribute, lemma_grows, lemma_missing_comes, lemma_near_bounds,
    lemma_move, lemma_near_chain, lemma_near_of_close, lemma_near_product, lemma_near_scaled,
    lemma_near_unscaled, lemma_not_negative, lemma_rate_near, lemma_scaled_bound, lemma_seconds_positive,
    lemma_share_near, near, units,
};
use crate::text::{
    concat3, decimal, decimal_text, is_digit, law_decimal_injective, lemma_decimal_digits,
};

verus! {

/// Shortest time to wait, in nanoseconds.
pub const MIN_RETRY_NANOS: u64 = 1_000_000;

/// How many requests are allowed: `capacity` per `interval` nanoseconds in the long run, and
/// `burst` at once.
#[derive(Debug, Clone, Copy, PartialEq, Eq, Structural)]
pub struct RateLimitPolicy {
    pub capacity: u32,
    pub burst: u32,
    pub interval: u64,
}

/// The tokens of one client.
#[derive(Debug, Clone, Copy, PartialEq, Eq, Structural)]
pub struct RateWindow {
    pub tokens: Double,
    /// Nanoseconds of the process clock.
    pub last_refill: u64,
}

/// The contents of a [`RateWindow`].
pub struct Bucket {
    pub tokens: Number,
    pub last_refill: u64,
}

impl View for RateWindow {
    type V = Bucket;

    open spec fn view(&self) -> Bucket {
        Bucket { tokens: self.tokens@, last_refill: self.last_refill }
    }
}

/// How many tokens come in a second.
pub open spec fn rate_of(policy: RateLimitPolicy) -> Number {
    whole(policy.capacity as int).over(seconds_of(policy.interval as int))
}

/// How many tokens come in some nanoseconds.
pub open spec fn share_of(policy: RateLimitPolicy, nanos: int) -> Number {
    rate_of(policy).times(seconds_of(nanos))
}

/// The share of a token that may be missing when one is taken.
pub open spec fn tolerance() -> Number {
    nearest(1, 1_000_000_000)
}

impl Bucket {
    /// The number of tokens has one form, and a usual size.
    pub open spec fn wf(self) -> bool {
        self.tokens.wf() && -3000 <= self.tokens.exponent <= 400
    }

    /// A full bucket.
    pub open spec fn fresh(policy: RateLimitPolicy, now: u64) -> Bucket {
        Bucket { tokens: whole(policy.burst as int), last_refill: now }
    }

    /// The bucket at `now`: with the tokens that came since it was refilled last, as far as
    /// it holds them. Without an interval it is full.
    pub open spec fn refilled(self, policy: RateLimitPolicy, now: u64) -> Bucket {
        if policy.interval == 0 {
            Bucket::fresh(policy, now)
        } else if now <= self.last_refill {
            self
        } else {
            let sum = self.tokens.plus(share_of(policy, now - self.last_refill));
            Bucket { tokens: sum.least(whole(policy.burst as int)), last_refill: now }
        }
    }

    /// Whether a token can be taken: the bucket holds one, or all but the tolerance of one.
    pub open spec fn has_token(self, policy: RateLimitPolicy) -> bool {
        whole(1).at_most(self.tokens) || (policy.burst > 0 && whole(1).at_most(
            self.tokens.plus(tolerance()),
        ))
    }

    /// The bucket after a token was taken.
    pub open spec fn spent(self) -> Bucket {
        Bucket {
            tokens: if whole(1).at_most(self.tokens) {
                self.tokens.minus(whole(1))
            } else {
                Number::zero()
            },
            ..self
        }
    }

    /// What is missing of a token.
    pub open spec fn missing(self) -> Number {
        if whole(1).at_most(self.tokens) {
            Number::zero()
        } else {
            whole(1).minus(self.tokens)
        }
    }

    /// The nanoseconds in which what is missing of a token comes.
    pub open spec fn nanos_missing(self, policy: RateLimitPolicy) -> int {
        ceiling(self.missing().over(rate_of(policy)).times(whole(1_000_000_000)))
    }

    /// The time after which there is a token, in nanoseconds.
    pub open spec fn wait(self, policy: RateLimitPolicy) -> u64 {
        if policy.capacity == 0 || policy.interval == 0 {
            policy.interval
        } else {
            let nanos = self.nanos_missing(policy);
            if nanos == 0 {
                MIN_RETRY_NANOS
            } else if nanos <= u64::MAX {
                nanos as u64
            } else {
                u64::MAX
            }
        }
    }
}

/// A rate that is computed.
fn token_rate(policy: &RateLimitPolicy) -> (r: Double)
    requires
        policy.interval > 0,
    ensures
        r@ == rate_of(*policy),
        r@.wf(),
        r@.within(1500),
        policy.capacity > 0 ==> !r@.is_zero(),
{
    proof {
        lemma_seconds_positive(policy.interval as int);
        lemma_rate_near(policy.capacity as int, policy.interval as int);
    }
    Double::whole(policy.capacity as u128).over(seconds(policy.interval as u128))
}

impl RateWindow {
    pub open spec fn wf(&self) -> bool {
        self@.wf()
    }

    pub fn new(policy: &RateLimitPolicy, now: u64) -> (r: RateWindow)
        ensures
            r@ == Bucket::fresh(*policy, now),
            r.wf(),
    {
        RateWindow { tokens: Double::whole(policy.burst as u128), last_refill: now }
    }

    pub fn refill(&mut self, policy: &RateLimitPolicy, now: u64)
        requires
            old(self).wf(),
        ensures
            final(self)@ == old(self)@.refilled(*policy, now),
            final(self).wf(),
    {
        let full: Double = Double::whole(policy.burst as u128);
        if policy.interval == 0 {
            self.tokens = full;
            self.last_refill = now;
            return ;
        }
        if now <= self.last_refill {
            return ;
        }
        let elapsed: u64 = now - self.last_refill;
        let share: Double = token_rate(policy).times(seconds(elapsed as u128));
        self.tokens = self.tokens.plus(share).least(full);
        self.last_refill = now;
    }

    pub fn try_acquire(&mut self, policy: &RateLimitPolicy) -> (r: bool)
        requires
            old(self).wf(),
        ensures
            r == old(self)@.has_token(*policy),
            final(self)@ == (if r {
                old(self)@.spent()
            } else {
                old(self)@
            }),
            final(self).wf(),
    {
        let one: Double = Double::whole(1);
        if one.at_most(self.tokens) {
            self.tokens = self.tokens.minus(one);
            true
        } else if policy.burst == 0 {
            false
        } else if one.at_most(self.tokens.plus(Double::ratio(1, 1_000_000_000))) {
            self.tokens = Double::zero();
            true
        } else {
            false
        }
    }

    pub fn retry_after(&self, policy: &RateLimitPolicy) -> (r: u64)
        requires
            self.wf(),
        ensures
            r == self@.wait(*policy),
    {
        if policy.capacity == 0 || policy.interval == 0 {
            return policy.interval;
        }
        let one: Double = Double::whole(1);
        let missing: Double = if one.at_most(self.tokens) {
            Double::zero()
        } else {
            one.minus(self.tokens)
        };
        let nanos: u64 = capped_ceiling(
            missing.over(token_rate(policy)).times(Double::whole(1_000_000_000)),
        );
        if nanos == 0 {
            MIN_RETRY_NANOS
        } else {
            nanos
        }
    }
}

/// Why a request is refused: after this many nanoseconds another one may be allowed.
#[derive(Debug, Clone, Copy, PartialEq, Eq, Structural)]
pub struct RateLimitError {
    pub retry_after: u64,
}

/// The bucket of a client after a request at `now`, where there was a bucket or none.
pub open spec fn checked(bucket: Option<Bucket>, policy: RateLimitPolicy, now: u64) -> (
    Result<(), RateLimitError>,
    Bucket,
) {
    let before = match bucket {
        Some(b) => b,
        None => Bucket::fresh(policy, now),
    };
    let b = before.refilled(policy, now);
    if b.has_token(policy) {
        (Ok(()), b.spent())
    } else {
        (Err(RateLimitError { retry_after: b.wait(policy) }), b)
    }
}

/// The buckets of all clients.
pub struct SharedRateLimiter {
    windows: StringHashMap<RateWindow>,
}

impl View for SharedRateLimiter {
    type V = Map<Seq<char>, Bucket>;

    closed spec fn view(&self) -> Map<Seq<char>, Bucket> {
        self.windows@.map_values(|w: RateWindow| w@)
    }
}

/// The bucket of the client `key`, if it has one.
pub open spec fn window_of(buckets: Map<Seq<char>, Bucket>, key: Seq<char>) -> Option<Bucket> {
    if buckets.contains_key(key) {
        Some(buckets[key])
    } else {
        None
    }
}

impl SharedRateLimiter {
    /// Every bucket is valid.
    pub open spec fn wf(&self) -> bool {
        forall|key: Seq<char>| #[trigger] self@.contains_key(key) ==> self@[key].wf()
    }

    pub fn new() -> (r: SharedRateLimiter)
        ensures
            r.wf(),
            r@ == Map::<Seq<char>, Bucket>::empty(),
    {
        let r: SharedRateLimiter = SharedRateLimiter { windows: StringHashMap::new() };
        assert(r@ =~= Map::<Seq<char>, Bucket>::empty());
        r
    }

    /// Takes a token for a request of the client `key` at `now`.
    pub fn check(&mut self, key: &str, policy: &RateLimitPolicy, now: u64) -> (r: Result<
        (),
        RateLimitError,
    >)
        requires
            old(self).wf(),
        ensures
            final(self).wf(),
            ({
                let (result, bucket) = checked(window_of(old(self)@, key@), *policy, now);
                &&& r == result
                &&& final(self)@ == old(self)@.insert(key@, bucket)
            }),
    {
        let mut window: RateWindow = match self.windows.get(key) {
            Some(found) => *found,
            None => RateWindow::new(policy, now),
        };
        assert(self.windows@.contains_key(key@) ==> self@.contains_key(key@));
        window.refill(policy, now);
        let r: Result<(), RateLimitError> = if window.try_acquire(policy) {
            Ok(())
        } else {
            Err(RateLimitError { retry_after: window.retry_after(policy) })
        };
        self.windows.insert(key.to_string(), window);
        assert(self@ =~= old(self)@.insert(key@, window@));
        r
    }
}

/// The client that an agent is to the limit of an endpoint. The agent zero stands for all
/// that are not known.
pub open spec fn key_of(endpoint: Seq<char>, agent_id: u64) -> Seq<char> {
    endpoint + ":"@ + (if agent_id == 0 {
        "anonymous"@
    } else {
        decimal_text(agent_id as nat)
    })
}

/// The client that an agent is to the limit of an endpoint.
pub fn rate_key(endpoint: &str, agent_id: u64) -> (r: String)
    ensures
        r@ == key_of(endpoint@, agent_id),
{
    if agent_id == 0 {
        concat3(endpoint, ":", "anonymous")
    } else {
        concat3(endpoint, ":", decimal(agent_id).as_str())
    }
}

/// Agents do not share their limits.
pub proof fn law_agents_have_own_limits(endpoint: Seq<char>, a: u64, b: u64)
    requires
        a != b,
    ensures
        key_of(endpoint, a) != key_of(endpoint, b),
{
    let prefix = endpoint + ":"@;
    let x = if a == 0 {
        "anonymous"@
    } else {
        decimal_text(a as nat)
    };
    let y = if b == 0 {
        "anonymous"@
    } else {
        decimal_text(b as nat)
    };
    if key_of(endpoint, a) == key_of(endpoint, b) {
        assert(x =~= key_of(endpoint, a).skip(prefix.len() as int));
        assert(y =~= key_of(endpoint, b).skip(prefix.len() as int));
        reveal_strlit("anonymous");
        assert("anonymous"@[0] == 'a');
        assert(!is_digit('a'));
        if a != 0 && b != 0 {
            law_decimal_injective(a as nat, b as nat);
        } else if a != 0 {
            lemma_decimal_digits(a as nat);
            assert(is_digit(x[0]));
        } else {
            lemma_decimal_digits(b as nat);
            assert(is_digit(y[0]));
        }
    }
}

/// A request of one client does not change what another one may do.
pub proof fn law_clients_are_separate(
    windows: Map<Seq<char>, Bucket>,
    key: Seq<char>,
    other: Seq<char>,
    policy: RateLimitPolicy,
    now: u64,
)
    requires
        key != other,
    ensures
        window_of(
            windows.insert(key, checked(window_of(windows, key), policy, now).1),
            other,
        ) == window_of(windows, other),
{
}

/// A bucket after `n` requests at the same time.
pub open spec fn after_requests(policy: RateLimitPolicy, now: u64, n: nat) -> Option<Bucket>
    decreases n,
{
    if n == 0 {
        None
    } else {
        Some(checked(after_requests(policy, now, (n - 1) as nat), policy, now).1)
    }
}

/// Of the requests that a new client makes at one time, as many are allowed as the burst
/// says, and all others are refused.
pub proof fn law_burst_then_refused(policy: RateLimitPolicy, now: u64, n: nat)
    requires
        policy.interval > 0,
    ensures
        checked(after_requests(policy, now, n), policy, now).0 is Ok <==> n < policy.burst,
{
    lemma_after_requests(policy, now, n);
    lemma_empty_bucket();
    if n < policy.burst {
        lemma_whole_less_one(policy.burst - n);
    }
}

/// An empty bucket gives no token.
pub proof fn lemma_empty_bucket()
    ensures
        whole(0) == Number::zero(),
        !whole(1).at_most(Number::zero()),
        !whole(1).at_most(Number::zero().plus(tolerance())),
{
    lemma_whole_one();
    lemma_tolerance();
    lemma_order(whole(1), tolerance());
}

/// The tolerance is about one billionth.
pub proof fn lemma_tolerance()
    ensures
        tolerance().wf(),
        tolerance().value() <= (1 as real) / (999_999_999 as real),
        tolerance().value() >= (1 as real) / (1_000_000_001 as real),
        tolerance().value() * billion() <= (1 as real) + units(1),
        tolerance().value() * billion() >= (1 as real) - units(1),
        !tolerance().is_zero(),
{
    lemma_nearest_near(1, 1_000_000_000);
    lemma_near_of_close(tolerance().value() * billion(), 1 as real);
    reveal(near);
}

proof fn lemma_after_requests(policy: RateLimitPolicy, now: u64, n: nat)
    requires
        policy.interval > 0,
    ensures
        ({
            let before = match after_requests(policy, now, n) {
                Some(b) => b,
                None => Bucket::fresh(policy, now),
            };
            let left: int = if n <= policy.burst {
                policy.burst - n
            } else {
                0
            };
            &&& before.last_refill == now
            &&& before.tokens == whole(left)
        }),
    decreases n,
{
    if n > 0 {
        let m = (n - 1) as nat;
        lemma_after_requests(policy, now, m);
        lemma_empty_bucket();
        if m < policy.burst {
            lemma_whole_less_one(policy.burst - m);
        }
    }
}

/// A bucket that holds almost a token gives one.
proof fn lemma_almost_a_token(bucket: Bucket, policy: RateLimitPolicy)
    requires
        bucket.tokens.wf(),
        policy.burst > 0,
        bucket.tokens.value() >= (1 as real) - units(2000),
    ensures
        bucket.has_token(policy),
{
    let x = bucket.tokens;
    let t = tolerance();
    lemma_whole_one();
    lemma_tolerance();
    lemma_order(whole(1), x);
    if x.value() < 1 as real {
        let sum = x.plus(t);
        lemma_plus(x, t);
        lemma_value_positive(x);
        lemma_near_of_close(sum.value(), x.value() + t.value());
        lemma_near_bounds(sum.value(), x.value() + t.value(), units(1), 2 as real);
        lemma_order(whole(1), sum);
    }
}

/// A bucket that holds almost a token after it was refilled gives one.
proof fn lemma_refill_serves(bucket: Bucket, policy: RateLimitPolicy, now: u64)
    requires
        bucket.tokens.wf(),
        policy.interval > 0,
        policy.burst > 0,
        bucket.last_refill < now,
        bucket.tokens.value() + share_of(policy, now - bucket.last_refill).value() >= (1 as real)
            - units(1000),
    ensures
        checked(Some(bucket), policy, now).0 is Ok,
{
    let x = bucket.tokens;
    let share = share_of(policy, now - bucket.last_refill);
    let sum = x.plus(share);
    let full = whole(policy.burst as int);
    lemma_share_near(policy.capacity as int, policy.interval as int, now - bucket.last_refill);
    lemma_value_positive(x);
    lemma_plus(x, share);
    lemma_whole_exact(policy.burst as int);
    lemma_order(sum, full);
    let t = x.value() + share.value();
    lemma_near_of_close(sum.value(), t);
    reveal(near);
    lemma_grows((1 as real) - units(1), (1 as real) - units(1000), t);
    lemma_commute((1 as real) - units(1), t);
    lemma_distribute((1 as real) - units(1), units(1000));
    lemma_scaled_bound((1 as real) - units(1), 1 as real, units(1000));
    lemma_almost_a_token(bucket.refilled(policy, now), policy);
}

/// A client that has waited for its share of the interval since its last request is served.
pub proof fn law_patient_client_is_served(bucket: Bucket, policy: RateLimitPolicy, now: u64)
    requires
        bucket.wf(),
        policy.interval > 0,
        policy.burst > 0,
        bucket.last_refill <= now,
        policy.capacity * (now - bucket.last_refill) >= policy.interval,
    ensures
        checked(Some(bucket), policy, now).0 is Ok,
{
    let d = now - bucket.last_refill;
    let c = policy.capacity as int;
    let i = policy.interval as int;
    assert(d > 0) by (nonlinear_arith)
        requires
            c * d >= i,
            i > 0,
            c >= 0,
            d >= 0,
    ;
    let share = share_of(policy, d);
    lemma_share_near(c, i, d);
    lemma_value_positive(bucket.tokens);
    reveal(near);
    let e = (1 as real) - units(906);
    lemma_scaled_bound(i as real, (c * d) as real, e);
    lemma_commute(e, i as real);
    lemma_product_order(e, share.value(), i as real);
    lemma_refill_serves(bucket, policy, now);
}

/// A client that was refused and comes back after the time that it was told is served.
pub proof fn law_retry_after_is_enough(
    bucket: Bucket,
    policy: RateLimitPolicy,
    now: u64,
    later: u64,
)
    requires
        bucket.wf(),
        policy.interval > 0,
        policy.burst > 0,
        policy.capacity > 0,
        bucket.last_refill <= now,
        checked(Some(bucket), policy, now).0 is Err,
        later >= now + checked(Some(bucket), policy, now).0->Err_0.retry_after,
    ensures
        checked(Some(checked(Some(bucket), policy, now).1), policy, later).0 is Ok,
{
    let after = checked(Some(bucket), policy, now).1;
    let x = after.tokens;
    let missing = after.missing();
    let rate = rate_of(policy);
    let n = after.nanos_missing(policy);
    lemma_refilled_number(bucket, policy, now);
    lemma_whole_one();
    lemma_value_positive(x);
    lemma_order(whole(1), x);
    lemma_order(x, whole(1));
    lemma_minus(whole(1), x);
    lemma_rate_near(policy.capacity as int, policy.interval as int);
    lemma_over(missing, rate);
    lemma_whole_exact(1_000_000_000);
    lemma_times(missing.over(rate), whole(1_000_000_000));
    lemma_ceiling(missing.over(rate).times(whole(1_000_000_000)));
    let elapsed = later - now;
    let t = x.value();
    if n > u64::MAX {
        let c = policy.capacity as int;
        let i = policy.interval as int;
        assert(c * elapsed >= i) by (nonlinear_arith)
            requires
                c >= 1,
                elapsed >= i,
                i >= 0,
        ;
        let share = share_of(policy, elapsed);
        lemma_share_near(c, i, elapsed);
        reveal(near);
        let e = (1 as real) - units(906);
        lemma_scaled_bound(i as real, (c * elapsed) as real, e);
        lemma_commute(e, i as real);
        lemma_product_order(e, share.value(), i as real);
    } else {
        lemma_missing_comes(missing, rate, elapsed);
        let m = missing.value();
        let share = share_of(policy, elapsed).value();
        let gap = (1 as real) - t;
        lemma_near_of_close(m, gap);
        lemma_near_bounds(m, gap, units(1), 1 as real);
        lemma_distribute(m, units(180));
        lemma_scaled_bound(m, 2 as real, units(180));
    }
    lemma_refill_serves(after, policy, later);
}

/// A bucket that was refilled holds a number of tokens.
pub proof fn lemma_refilled_number(bucket: Bucket, policy: RateLimitPolicy, now: u64)
    requires
        bucket.tokens.wf(),
    ensures
        bucket.refilled(policy, now).tokens.wf(),
{
    lemma_whole_exact(policy.burst as int);
    if policy.interval > 0 && now > bucket.last_refill {
        lemma_share_near(policy.capacity as int, policy.interval as int, now - bucket.last_refill);
        lemma_plus(bucket.tokens, share_of(policy, now - bucket.last_refill));
    }
}

/// The bucket of a client after requests at `times`, and how many of them were allowed.
pub open spec fn served(bucket: Bucket, policy: RateLimitPolicy, times: Seq<u64>) -> (Bucket, int)
    decreases times.len(),
{
    if times.len() == 0 {
        (bucket, 0)
    } else {
        let (before, count) = served(bucket, policy, times.drop_last());
        let (result, after) = checked(Some(before), policy, times.last());
        (
            after,
            if result is Ok {
                count + 1
            } else {
                count
            },
        )
    }
}

/// How many tokens come in a nanosecond.
pub open spec fn tokens_per_nano(policy: RateLimitPolicy) -> real {
    policy.capacity as real / policy.interval as real
}

/// Each request that is allowed takes at least this much.
pub open spec fn least_cost() -> real {
    (499_999_999 as real) / (500_000_000 as real)
}

/// Over any period, the requests that are allowed take no more than the tokens that were there
/// at its start and those that came during it, but for the tolerance of each, and for the
/// rounding of the numbers at each request.
pub proof fn law_rate_is_limited(bucket: Bucket, policy: RateLimitPolicy, times: Seq<u64>)
    requires
        bucket.wf(),
        bucket.tokens.at_most(whole(policy.burst as int)),
        policy.interval > 0,
        times.len() > 0,
        forall|i: int| 0 <= i < times.len() ==> bucket.last_refill <= #[trigger] times[i],
        forall|i: int, j: int| 0 <= i <= j < times.len() ==> times[i] <= times[j],
    ensures
        served(bucket, policy, times).1 as real * least_cost() <= bucket.tokens.value()
            + tokens_per_nano(policy) * ((times.last() - bucket.last_refill) as real)
            + times.len() as real * (policy.burst as real * units(5000)),
{
    lemma_served(bucket, policy, times);
    lemma_value_positive(served(bucket, policy, times).0.tokens);
}

proof fn lemma_times_divided(c: real, i: real, d: real)
    by (nonlinear_arith)
    requires
        i > 0 as real,
    ensures
        ((c / i) * d) * i == c * d,
{
}

/// What comes in some nanoseconds is near their number times what comes in one.
proof fn lemma_share_per_nano(policy: RateLimitPolicy, d: int)
    requires
        policy.interval > 0,
        d >= 0,
    ensures
        near(share_of(policy, d).value(), tokens_per_nano(policy) * (d as real), units(906)),
        tokens_per_nano(policy) * (d as real) >= 0 as real,
        share_of(policy, d).wf(),
        share_of(policy, d).value() >= 0 as real,
{
    let c = policy.capacity as int;
    let i = policy.interval as int;
    let per = tokens_per_nano(policy);
    lemma_share_near(c, i, d);
    lemma_real_product(c, d);
    lemma_times_divided(c as real, i as real, d as real);
    lemma_near_unscaled(
        share_of(policy, d).value(),
        per * (d as real),
        units(906),
        i as real,
    );
    assert(per >= 0 as real) by (nonlinear_arith)
        requires
            per == c as real / i as real,
            c as real >= 0 as real,
            i as real > 0 as real,
    ;
    lemma_not_negative(per, d as real);
}

/// A refilled bucket holds hardly more than it held and what came.
proof fn lemma_refill_bound(bucket: Bucket, policy: RateLimitPolicy, now: u64)
    requires
        bucket.tokens.wf(),
        bucket.tokens.value() <= policy.burst as real,
        policy.interval > 0,
        bucket.last_refill <= now,
    ensures
        ({
            let after = bucket.refilled(policy, now);
            let most = policy.burst as real;
            &&& after.tokens.wf()
            &&& after.last_refill == now
            &&& 0 as real <= after.tokens.value() <= most
            &&& after.tokens.value() <= bucket.tokens.value() + tokens_per_nano(policy) * ((now
                - bucket.last_refill) as real) + most * units(4000)
        }),
{
    let most = policy.burst as real;
    let d = now - bucket.last_refill;
    let x = bucket.tokens;
    let share = share_of(policy, d);
    let new = tokens_per_nano(policy) * (d as real);
    lemma_value_positive(x);
    lemma_share_per_nano(policy, d);
    lemma_refilled_number(bucket, policy, now);
    lemma_value_positive(bucket.refilled(policy, now).tokens);
    lemma_not_negative(most, units(4000));
    if now > bucket.last_refill {
        let sum = x.plus(share);
        let t = x.value() + share.value();
        lemma_plus(x, share);
        lemma_value_positive(sum);
        lemma_whole_exact(policy.burst as int);
        lemma_order(sum, whole(policy.burst as int));
        lemma_near_of_close(sum.value(), t);
        if sum.value() <= most {
            lemma_half(sum.value(), t, units(1));
            lemma_half(share.value(), new, units(906));
            lemma_near_bounds(sum.value(), t, units(1), (2 as real) * most);
            lemma_near_bounds(share.value(), new, units(906), (4 as real) * most);
            lemma_units(most, 2, 1);
            lemma_units(most, 4, 906);
            lemma_units(most, 1, 4000);
        } else if new < most {
            lemma_near_bounds(share.value(), new, units(906), most);
            lemma_units(most, 1, 906);
            lemma_units(most, 3, 1);
            lemma_units(most, 1, 4000);
            lemma_near_bounds(sum.value(), t, units(1), (3 as real) * most);
        }
    }
}

/// What is near is at least half.
proof fn lemma_half(v: real, t: real, e: real)
    requires
        near(v, t, e),
        t >= 0 as real,
        e <= (1 as real) / (2 as real),
    ensures
        t <= (2 as real) * v,
{
    reveal(near);
    lemma_grows(t, (1 as real) / (2 as real), (1 as real) - e);
}

/// Multiples of the precision.
proof fn lemma_units(most: real, k: int, n: int)
    ensures
        ((k as real) * most) * units(n) == most * units(k * n),
        most * units(n) == (n as real) * (most * units(1)),
        most * units(k * n) == ((k as real) * (n as real)) * (most * units(1)),
{
    lemma_real_product(k, n);
    let a = k as real;
    let b = n as real;
    let u = units(1);
    assert(units(n) == b * u) by (nonlinear_arith)
        requires
            units(n) == b / (9007199254740992 as real),
            u == (1 as real) / (9007199254740992 as real),
    ;
    assert(units(k * n) == (a * b) * u) by (nonlinear_arith)
        requires
            units(k * n) == (a * b) / (9007199254740992 as real),
            u == (1 as real) / (9007199254740992 as real),
    ;
    lemma_rearrange(most, a, b, u);
}

proof fn lemma_rearrange(m: real, a: real, b: real, u: real)
    by (nonlinear_arith)
    ensures
        (a * m) * (b * u) == m * ((a * b) * u),
        m * (b * u) == b * (m * u),
        m * ((a * b) * u) == (a * b) * (m * u),
{
}

/// One request.
proof fn lemma_request(bucket: Bucket, policy: RateLimitPolicy, now: u64)
    requires
        bucket.tokens.wf(),
        bucket.tokens.value() <= policy.burst as real,
        policy.interval > 0,
        bucket.last_refill <= now,
    ensures
        ({
            let (result, after) = checked(Some(bucket), policy, now);
            let most = policy.burst as real;
            let cost = if result is Ok {
                least_cost()
            } else {
                0 as real
            };
            &&& after.tokens.wf()
            &&& after.last_refill == now
            &&& after.tokens.value() <= most
            &&& after.tokens.value() + cost <= bucket.tokens.value() + tokens_per_nano(policy) * ((
            now - bucket.last_refill) as real) + most * units(5000)
        }),
{
    let most = policy.burst as real;
    let b = bucket.refilled(policy, now);
    let x = b.tokens;
    lemma_refill_bound(bucket, policy, now);
    lemma_units(most, 1, 4000);
    lemma_units(most, 1, 5000);
    lemma_units(most, 1, 1);
    lemma_not_negative(most, units(1));
    lemma_whole_one();
    lemma_order(whole(1), x);
    if b.has_token(policy) {
        if whole(1).at_most(x) {
            let rest = x.minus(whole(1));
            lemma_minus(x, whole(1));
            lemma_minus_shrinks(x, whole(1));
            lemma_order(rest, x);
            lemma_near_of_close(rest.value(), x.value() - 1 as real);
            lemma_near_bounds(rest.value(), x.value() - 1 as real, units(1), most);
        } else {
            let t = tolerance();
            let sum = x.plus(t);
            lemma_tolerance();
            lemma_plus(x, t);
            lemma_order(whole(1), sum);
            lemma_near_of_close(sum.value(), x.value() + t.value());
            lemma_near_bounds(sum.value(), x.value() + t.value(), units(1), 2 as real);
            lemma_whole_exact(0);
            lemma_empty_bucket();
        }
    }
}

proof fn lemma_served(bucket: Bucket, policy: RateLimitPolicy, times: Seq<u64>)
    requires
        bucket.tokens.wf(),
        bucket.tokens.at_most(whole(policy.burst as int)),
        policy.interval > 0,
        forall|i: int| 0 <= i < times.len() ==> bucket.last_refill <= #[trigger] times[i],
        forall|i: int, j: int| 0 <= i <= j < times.len() ==> times[i] <= times[j],
    ensures
        ({
            let (after, count) = served(bucket, policy, times);
            let end = if times.len() == 0 {
                bucket.last_refill
            } else {
                times.last()
            };
            &&& after.tokens.wf()
            &&& after.tokens.value() <= policy.burst as real
            &&& after.last_refill == end
            &&& count as real * least_cost() + after.tokens.value() <= bucket.tokens.value()
                + tokens_per_nano(policy) * ((end - bucket.last_refill) as real) + times.len()
                as real * (policy.burst as real * units(5000))
        }),
    decreases times.len(),
{
    let per = tokens_per_nano(policy);
    let error = policy.burst as real * units(5000);
    let n = times.len();
    lemma_whole_exact(policy.burst as int);
    lemma_order(bucket.tokens, whole(policy.burst as int));
    if n == 0 {
        assert((0 as real) * least_cost() == 0 as real) by (nonlinear_arith);
        assert((0 as real) * error == 0 as real) by (nonlinear_arith);
        assert(per * (0 as real) == 0 as real) by (nonlinear_arith);
    } else {
        let init = times.drop_last();
        let now = times.last();
        assert forall|i: int| 0 <= i < init.len() implies bucket.last_refill <= #[trigger] init[i] by {
            assert(init[i] == times[i]);
        }
        assert forall|i: int, j: int| 0 <= i <= j < init.len() implies init[i] <= init[j] by {
            assert(times[i] <= times[j]);
        }
        lemma_served(bucket, policy, init);
        let (before, count) = served(bucket, policy, init);
        let start = if init.len() == 0 {
            bucket.last_refill
        } else {
            init.last()
        };
        assert(start <= now) by {
            if init.len() > 0 {
                assert(init.last() == times[n - 2]);
                assert(times[n - 2] <= times[n - 1]);
            } else {
                assert(bucket.last_refill <= times[n - 1]);
            }
        }
        lemma_request(before, policy, now);
        let d1 = (start - bucket.last_refill) as real;
        let d2 = (now - start) as real;
        lemma_spread(d1, d2, per);
        lemma_commute(d1, per);
        lemma_commute(d2, per);
        lemma_commute(d1 + d2, per);
        assert((now - bucket.last_refill) as real == d1 + d2);
        lemma_spread(init.len() as real, 1 as real, error);
        lemma_one_times(error);
        assert(times.len() as real == init.len() as real + 1 as real);
        lemma_spread(count as real, 1 as real, least_cost());
        lemma_one_times(least_cost());
        assert((count + 1) as real == count as real + 1 as real);
    }
}

proof fn lemma_one_times(a: real)
    by (nonlinear_arith)
    ensures
        (1 as real) * a == a,
{
}

/// However long a client stays away, it finds no more tokens than the burst.
pub proof fn law_idle_time_earns_no_more_than_the_burst(
    bucket: Bucket,
    policy: RateLimitPolicy,
    now: u64,
)
    requires
        bucket.tokens.wf(),
        bucket.last_refill < now || policy.interval == 0,
    ensures
        bucket.refilled(policy, now).tokens.value() <= policy.burst as real,
        bucket.refilled(policy, now).last_refill == now,
{
    lemma_whole_exact(policy.burst as int);
    if policy.interval > 0 {
        let share = share_of(policy, now - bucket.last_refill);
        lemma_share_near(policy.capacity as int, policy.interval as int, now - bucket.last_refill);
        lemma_plus(bucket.tokens, share);
        lemma_order(bucket.tokens.plus(share), whole(policy.burst as int));
    }
}

/// A client that stays away finds what it left and what came meanwhile, but for rounding, unless
/// that is more than the burst.
pub proof fn law_idle_time_earns_its_share(bucket: Bucket, policy: RateLimitPolicy, now: u64)
    requires
        bucket.tokens.wf(),
        policy.interval > 0,
        bucket.last_refill < now,
    ensures
        ({
            let after = bucket.refilled(policy, now).tokens.value();
            let due = bucket.tokens.value() + tokens_per_nano(policy) * ((now
                - bucket.last_refill) as real);
            after == policy.burst as real || after >= due * ((1 as real) - units(2000))
        }),
{
    let d = now - bucket.last_refill;
    let x = bucket.tokens;
    let share = share_of(policy, d);
    let new = tokens_per_nano(policy) * (d as real);
    let due = x.value() + new;
    lemma_value_positive(x);
    lemma_share_per_nano(policy, d);
    lemma_whole_exact(policy.burst as int);
    lemma_plus(x, share);
    let sum = x.plus(share);
    let t = x.value() + share.value();
    lemma_order(sum, whole(policy.burst as int));
    lemma_near_of_close(sum.value(), t);
    reveal(near);
    let e = (1 as real) - units(906);
    let u = (1 as real) - units(1);
    lemma_spread(x.value(), new, e);
    lemma_grows(x.value(), e, 1 as real);
    assert(x.value() * (1 as real) == x.value()) by (nonlinear_arith);
    assert(t >= due * e);
    lemma_scaled_bound(due * e, t, u);
    lemma_distribute(e, units(1));
    lemma_scaled_bound(e, 1 as real, units(1));
    assert(e * u >= (1 as real) - units(2000));
    lemma_regroup(due, e, u);
    lemma_grows(due, (1 as real) - units(2000), e * u);
}

/// A request that is allowed costs one token, but for rounding, and what is left of one if there is
/// no whole one. A request that is refused costs nothing.
pub proof fn law_request_costs_a_token(bucket: Bucket, policy: RateLimitPolicy, now: u64)
    requires
        bucket.tokens.wf(),
    ensures
        ({
            let (result, after) = checked(Some(bucket), policy, now);
            let before = bucket.refilled(policy, now);
            let held = before.tokens.value();
            &&& after.last_refill == before.last_refill
            &&& result is Ok && held >= 1 as real ==> close(
                after.tokens.value(),
                held - (1 as real),
            )
            &&& result is Ok && held < 1 as real ==> after.tokens.value() == 0 as real
            &&& result is Err ==> after == before && held < 1 as real
        }),
{
    let before = bucket.refilled(policy, now);
    lemma_refilled_number(bucket, policy, now);
    lemma_whole_one();
    lemma_order(whole(1), before.tokens);
    if before.tokens.value() >= 1 as real {
        lemma_minus(before.tokens, whole(1));
    }
    assert(Number::zero().value() == 0 as real) by {
        let z = Number::zero();
        lemma_value_positive(z);
    }
}

/// A client that is refused is told to wait hardly longer than until the token that it lacks has
/// come, but at least a millisecond.
pub proof fn law_retry_after_is_no_longer_than_needed(
    bucket: Bucket,
    policy: RateLimitPolicy,
    now: u64,
)
    requires
        bucket.tokens.wf(),
        policy.interval > 0,
        policy.capacity > 0,
        checked(Some(bucket), policy, now).0 is Err,
    ensures
        ({
            let wait = checked(Some(bucket), policy, now).0->Err_0.retry_after;
            let lacking = (1 as real) - bucket.refilled(policy, now).tokens.value();
            wait == 1_000_000 || (((wait - 1) as real) * (policy.capacity as real)) * ((1 as real)
                - units(200)) <= (lacking * (policy.interval as real)) * ((1 as real) + units(200))
        }),
{
    let after = bucket.refilled(policy, now);
    let x = after.tokens;
    let missing = after.missing();
    let rate = rate_of(policy);
    let n = after.nanos_missing(policy);
    let c = policy.capacity as real;
    let i = policy.interval as real;
    let g = billion();
    lemma_refilled_number(bucket, policy, now);
    lemma_whole_one();
    lemma_value_positive(x);
    lemma_order(whole(1), x);
    lemma_minus(whole(1), x);
    lemma_rate_near(policy.capacity as int, policy.interval as int);
    lemma_value_positive(rate);
    let q = missing.over(rate);
    lemma_over(missing, rate);
    lemma_value_positive(q);
    lemma_value_positive(missing);
    lemma_whole_exact(1_000_000_000);
    let y = q.times(whole(1_000_000_000));
    lemma_times(q, whole(1_000_000_000));
    lemma_value_positive(y);
    lemma_ceiling_below(y);
    lemma_ceiling(y);
    let gap = (1 as real) - x.value();
    let m = missing.value();
    let r = rate.value();
    let v = y.value();
    let qv = q.value();
    // The product of the wait and the rate is near what is missing.
    lemma_near_of_close(v, qv * g);
    lemma_near_itself(r);
    lemma_not_negative(qv, g);
    lemma_near_product(v, r, qv * g, r, units(1), units(0));
    assert((2 as real) * (units(1) + units(0)) == units(2));
    lemma_move(qv, g, r);
    lemma_near_of_close(qv * r, m);
    lemma_near_scaled(qv * r, m, units(1), g);
    lemma_not_negative(m, g);
    lemma_near_chain(v * r, (qv * r) * g, m * g, units(2), units(1));
    assert((2 as real) * (units(2) + units(1)) == units(6));
    lemma_near_of_close(m, gap);
    lemma_near_scaled(m, gap, units(1), g);
    lemma_not_negative(gap, g);
    lemma_near_chain(v * r, m * g, gap * g, units(6), units(1));
    assert((2 as real) * (units(6) + units(1)) == units(14));
    lemma_near_scaled(v * r, gap * g, units(14), i);
    reveal(near);
    let less = (1 as real) - units(184);
    let more = (1 as real) + units(14);
    lemma_regroup(v, r, i);
    lemma_grows(v, (c * g) * less, r * i);
    assert(v * ((c * g) * less) <= ((gap * g) * i) * more);
    lemma_cancel(v, c, g, less, gap, i, more);
    let k = (n - 1) as real;
    lemma_scaled_bound(k, v, c);
    lemma_scaled_bound(k * c, v * c, less);
    let wide = (1 as real) + units(200);
    let tight = (1 as real) - units(200);
    lemma_not_negative(gap, i);
    lemma_grows(gap * i, more, wide);
    if after.wait(policy) != 1_000_000 && n > 0 {
        let w = (after.wait(policy) - 1) as real;
        lemma_scaled_bound(w, k, c);
        lemma_not_negative(w, c);
        lemma_grows(w * c, tight, less);
        lemma_scaled_bound(w * c, k * c, less);
    }
}

proof fn lemma_near_itself(t: real)
    ensures
        near(t, t, units(0)),
{
    reveal(near);
    assert(t * (1 as real) == t) by (nonlinear_arith);
    assert(units(0) == 0 as real);
}

proof fn lemma_cancel(v: real, c: real, g: real, less: real, gap: real, i: real, more: real)
    requires
        g > 0 as real,
        v * ((c * g) * less) <= ((gap * g) * i) * more,
    ensures
        (v * c) * less <= (gap * i) * more,
{
    lemma_factor(v, c, g, less);
    lemma_factor_last(gap, g, i, more);
    lemma_product_order((v * c) * less, (gap * i) * more, g);
}

proof fn lemma_factor(v: real, c: real, g: real, less: real)
    by (nonlinear_arith)
    ensures
        v * ((c * g) * less) == ((v * c) * less) * g,
{
}

proof fn lemma_factor_last(gap: real, g: real, i: real, more: real)
    by (nonlinear_arith)
    ensures
        ((gap * g) * i) * more == ((gap * i) * more) * g,
{
}

} // verus!
