//! Delays between attempts.

use vstd::prelude::*;

use crate::double::{
    capped_nanos, lemma_nanos_monotone, lemma_nanos_near, lemma_nanos_positive, lemma_nearest_near,
    lemma_nearest_stays, lemma_over, lemma_product_order, lemma_real_product, lemma_regroup, lemma_seconds,
    lemma_shifted_value, lemma_swap, lemma_times, lemma_times_monotone, lemma_times_one,
    lemma_two_to, lemma_two_to_adds, lemma_value_positive, lemma_whole_one, nanos_of, nearest, seconds,
    seconds_of, two_to, whole, Double, Number, MANTISSA_HIGH, MANTISSA_LOW,
};
use crate::nearness::{
    billion, lemma_commute, lemma_move, lemma_near_chain, lemma_near_of_close, lemma_near_product,
    lemma_near_scaled, lemma_near_wider, lemma_not_negative, lemma_scaled_bound,
    lemma_seconds_near, near, units,
};

verus! {

/// How long to wait after repeated failures: the delay grows by a factor with each of them,
/// up to a largest delay. Durations are in nanoseconds.
#[derive(Debug, Clone, Copy, PartialEq, Eq, Structural)]
pub struct BackoffPolicy {
    pub base: u128,
    pub max: u128,
    pub multiplier: Double,
}

/// The power to which the factor is raised after `attempts` failures: a number of 32 bits with
/// a sign.
pub open spec fn power_after(attempts: u32) -> int {
    if attempts <= i32::MAX {
        attempts as int
    } else {
        attempts - 0x1_0000_0000
    }
}

/// `x` to the power of `n`, multiplied up factor by factor.
pub open spec fn raised(x: Number, n: nat) -> Number
    decreases n,
{
    if n == 0 {
        whole(1)
    } else {
        raised(x, (n - 1) as nat).times(x)
    }
}

impl BackoffPolicy {
    /// The factor is a number of a usual size.
    pub open spec fn wf(&self) -> bool {
        self.multiplier@.wf() && self.multiplier@.within(2000)
    }

    /// The base delay in seconds times a factor, in nanoseconds, but at most the largest delay.
    pub open spec fn scaled(&self, factor: Number) -> u128 {
        let nanos = nanos_of(factor.times(seconds_of(self.base as int)));
        if nanos <= self.max {
            nanos as u128
        } else {
            self.max
        }
    }

    /// The delay before the attempt after `attempts` failures. Where there is no such number,
    /// it is the largest delay.
    pub open spec fn delay(&self, attempts: u32) -> u128 {
        let power = power_after(attempts);
        if power >= 0 {
            self.scaled(raised(self.multiplier@, power as nat))
        } else {
            let divisor = raised(self.multiplier@, (-power) as nat);
            if divisor.is_zero() {
                self.max
            } else {
                self.scaled(whole(1).over(divisor))
            }
        }
    }

    pub fn new(base: u128, max: u128, multiplier: Double) -> (r: BackoffPolicy)
        ensures
            r == (BackoffPolicy { base, max, multiplier }),
            multiplier@.wf() && multiplier@.within(2000) ==> r.wf(),
    {
        BackoffPolicy { base, max, multiplier }
    }

    /// Whether the factor is a number of a usual size.
    pub fn is_valid(&self) -> (r: bool)
        ensures
            r == self.wf(),
    {
        let m: u64 = self.multiplier.mantissa;
        let e: i64 = self.multiplier.exponent;
        ((m == 0 && e == 0) || (MANTISSA_LOW <= m && m < MANTISSA_HIGH)) && -2000 <= e && e <= 2000
    }

    fn scale(&self, factor: Double) -> (r: u128)
        requires
            factor@.wf(),
            factor@.within(0x80_0000_0000_0000),
        ensures
            r == self.scaled(factor@),
    {
        capped_nanos(factor.times(seconds(self.base)), self.max)
    }

    fn raise(&self, n: u32) -> (r: Double)
        requires
            self.wf(),
        ensures
            r@ == raised(self.multiplier@, n as nat),
            r@.wf(),
            r@.within(0x80_0000_0000_0000),
            r@.within(200 + 2200 * n),
    {
        let mut r: Double = Double::whole(1);
        let mut i: u32 = 0;
        while i < n
            invariant
                i <= n,
                self.wf(),
                r@ == raised(self.multiplier@, i as nat),
                r@.wf(),
                r@.within(200 + 2200 * i),
            decreases n - i,
        {
            r = r.times(self.multiplier);
            i = i + 1;
        }
        r
    }

    pub fn delay_for(&self, attempts: u32) -> (r: u128)
        requires
            self.wf(),
        ensures
            r == self.delay(attempts),
    {
        if attempts <= i32::MAX as u32 {
            self.scale(self.raise(attempts))
        } else {
            let divisor: Double = self.raise(u32::MAX - attempts + 1);
            if divisor.mantissa == 0 {
                self.max
            } else {
                self.scale(Double::whole(1).over(divisor))
            }
        }
    }
}

impl Default for BackoffPolicy {
    fn default() -> (r: BackoffPolicy)
        ensures
            r.base == 100_000_000,
            r.max == 5_000_000_000,
            r.multiplier@ == whole(2),
            r.wf(),
    {
        BackoffPolicy { base: 100_000_000, max: 5_000_000_000, multiplier: Double::whole(2) }
    }
}

proof fn lemma_raised(x: Number, n: nat)
    requires
        x.wf(),
    ensures
        raised(x, n).wf(),
    decreases n,
{
    lemma_nearest_near(1, 1);
    if n > 0 {
        lemma_raised(x, (n - 1) as nat);
        lemma_times(raised(x, (n - 1) as nat), x);
    }
}

/// What is multiplied by a number of at least one does not shrink.
proof fn lemma_times_grows(x: Number, factor: Number)
    requires
        x.wf(),
        factor.wf(),
        factor.value() >= 1 as real,
    ensures
        x.times(factor).value() >= x.value(),
{
    let m = x.mantissa;
    let f = factor.mantissa;
    let k = x.exponent + factor.exponent;
    lemma_value_positive(x);
    lemma_times(x, factor);
    let top = x.shifted(-k);
    lemma_shifted_value(x, -k);
    lemma_shifted_value(nearest(m * f, 1), k);
    lemma_two_to(k);
    lemma_two_to(-k);
    lemma_two_to_adds(k, -k);
    lemma_two_to_adds(x.exponent, factor.exponent);
    lemma_real_product(m, f);
    assert(m * f >= 0) by (nonlinear_arith)
        requires
            m >= 0,
            f >= 0,
    ;
    let v = x.value();
    let w = factor.value();
    let a = two_to(k);
    let b = two_to(-k);
    lemma_grown(v, w, b);
    lemma_swap(m as real, two_to(x.exponent), f as real, two_to(factor.exponent));
    lemma_regroup((m * f) as real, a, b);
    lemma_times_one((m * f) as real);
    lemma_times_one(top.value());
    lemma_nearest_stays(m * f, 1, top);
    lemma_product_order(top.value(), nearest(m * f, 1).value(), a);
    lemma_regroup(v, b, a);
    assert(b * a == a * b) by (nonlinear_arith);
    lemma_times_one(v);
}

proof fn lemma_grown(v: real, w: real, k: real)
    requires
        v >= 0 as real,
        w >= 1 as real,
        k > 0 as real,
    ensures
        v * k <= (v * w) * k,
{
    assert(v <= v * w) by (nonlinear_arith)
        requires
            v >= 0 as real,
            w >= 1 as real,
    ;
    lemma_product_order(v, v * w, k);
}

/// A larger factor does not make the delay shorter.
proof fn lemma_scaled_monotone(policy: BackoffPolicy, x: Number, y: Number)
    requires
        x.wf(),
        y.wf(),
        x.value() <= y.value(),
    ensures
        policy.scaled(x) <= policy.scaled(y),
        0 <= nanos_of(x.times(seconds_of(policy.base as int))),
{
    let s = seconds_of(policy.base as int);
    lemma_seconds(policy.base as int);
    lemma_times(x, s);
    lemma_times(y, s);
    lemma_times_monotone(x, y, s);
    lemma_nanos_monotone(x.times(s), y.times(s));
    lemma_nanos_positive(x.times(s));
}

/// No delay is longer than the largest one.
pub proof fn law_delay_bounded(policy: BackoffPolicy, attempts: u32)
    requires
        policy.wf(),
    ensures
        policy.delay(attempts) <= policy.max,
{
    let m = policy.multiplier@;
    let power = power_after(attempts);
    if power >= 0 {
        lemma_raised(m, power as nat);
        lemma_scaled_monotone(policy, raised(m, power as nat), raised(m, power as nat));
    } else {
        let divisor = raised(m, (-power) as nat);
        lemma_raised(m, (-power) as nat);
        lemma_nearest_near(1, 1);
        if !divisor.is_zero() {
            lemma_over(whole(1), divisor);
            lemma_scaled_monotone(policy, whole(1).over(divisor), whole(1).over(divisor));
        }
    }
}

/// Another failure never shortens the delay, if the factor is at least one.
pub proof fn law_delay_grows(policy: BackoffPolicy, attempts: u32, later: u32)
    requires
        policy.wf(),
        policy.multiplier@.value() >= 1 as real,
        attempts <= later <= i32::MAX,
    ensures
        policy.delay(attempts) <= policy.delay(later),
    decreases later - attempts,
{
    if attempts < later {
        let m = policy.multiplier@;
        let before = (later - 1) as u32;
        law_delay_grows(policy, attempts, before);
        lemma_raised(m, before as nat);
        lemma_raised(m, later as nat);
        lemma_times_grows(raised(m, before as nat), m);
        lemma_scaled_monotone(policy, raised(m, before as nat), raised(m, later as nat));
    }
}

/// Once the largest delay is reached, it stays.
pub proof fn law_largest_delay_stays(policy: BackoffPolicy, attempts: u32, later: u32)
    requires
        policy.wf(),
        policy.multiplier@.value() >= 1 as real,
        attempts <= later <= i32::MAX,
        policy.delay(attempts) == policy.max,
    ensures
        policy.delay(later) == policy.max,
{
    law_delay_grows(policy, attempts, later);
    law_delay_bounded(policy, later);
}

/// One half.
pub open spec fn half() -> real {
    (1 as real) / (2 as real)
}

/// The first delay is the base, to the nearest nanosecond and but for rounding, unless the largest
/// delay is shorter.
pub proof fn law_first_delay_is_the_base(policy: BackoffPolicy)
    requires
        policy.wf(),
    ensures
        policy.delay(0) as real <= (policy.base as real) * ((1 as real) + units(400)) + half(),
        policy.delay(0) == policy.max || policy.delay(0) as real >= (policy.base as real) * ((
        1 as real) - units(400)) - half(),
{
    let f = raised(policy.multiplier@, 0);
    lemma_whole_one();
    lemma_scaled_near(policy, f);
    let x = f.times(seconds_of(policy.base as int));
    let b = policy.base as real;
    lemma_commute(1 as real, b);
    lemma_times_one(b);
    assert(f.value() * b == b);
    lemma_near_wider(x.value() * billion(), b, units(170), units(400));
    reveal(near);
    lemma_nanos_near(x);
    lemma_scaled_monotone(policy, f, f);
}

/// Each failure multiplies the delay by the factor, to the nearest nanosecond and but for rounding,
/// up to the largest delay.
pub proof fn law_delay_multiplies(policy: BackoffPolicy, attempts: u32)
    requires
        policy.wf(),
        attempts < i32::MAX,
        policy.delay(attempts) < policy.max,
    ensures
        ({
            let m = policy.multiplier@.value();
            let d = policy.delay(attempts) as real;
            let next = policy.delay((attempts + 1) as u32);
            let more = (1 as real) + units(400);
            let less = (1 as real) - units(400);
            &&& (next as real - half()) * less <= ((d + half()) * m) * more
            &&& next == policy.max || (next as real + half()) * more >= ((d - half()) * m) * less
        }),
{
    let m = policy.multiplier@;
    let n = attempts as nat;
    let f = raised(m, n);
    let g = raised(m, n + 1);
    let s = seconds_of(policy.base as int);
    let x = f.times(s);
    let y = g.times(s);
    let b = policy.base as real;
    let later = (attempts + 1) as u32;
    let d = policy.delay(attempts) as real;
    let next = policy.delay(later) as real;
    lemma_raised(m, n);
    lemma_raised(m, n + 1);
    lemma_value_positive(m);
    lemma_value_positive(f);
    lemma_value_positive(g);
    assert(g == f.times(m));
    lemma_times(f, m);
    lemma_scaled_near(policy, f);
    lemma_scaled_near(policy, g);
    lemma_nanos_near(x);
    lemma_nanos_near(y);
    lemma_scaled_monotone(policy, f, f);
    lemma_scaled_monotone(policy, g, g);
    assert(power_after(later) == n + 1);
    let mv = m.value();
    let t = f.value() * b;
    let tm = (f.value() * mv) * b;
    lemma_not_negative(f.value(), mv);
    lemma_not_negative(f.value(), b);
    lemma_not_negative(f.value() * mv, b);
    lemma_near_of_close(g.value(), f.value() * mv);
    lemma_near_itself(b);
    lemma_near_product(g.value(), b, f.value() * mv, b, units(1), units(0));
    assert((2 as real) * (units(1) + units(0)) == units(2));
    lemma_near_chain(y.value() * billion(), g.value() * b, tm, units(170), units(2));
    assert((2 as real) * (units(170) + units(2)) == units(344));
    lemma_near_wider(y.value() * billion(), tm, units(344), units(400));
    lemma_near_wider(x.value() * billion(), t, units(170), units(400));
    reveal(near);
    let more = (1 as real) + units(400);
    let less = (1 as real) - units(400);
    let xv = x.value() * billion();
    let yv = y.value() * billion();
    lemma_move(f.value(), mv, b);
    assert(tm == t * mv);
    // What comes next lies between what came before, multiplied.
    lemma_scaled_bound(yv, tm * more, less);
    lemma_scaled_bound(tm * less, yv, more);
    lemma_move(tm, more, less);
    lemma_move(t, mv, less);
    lemma_move(t, mv, more);
    lemma_scaled_bound(t * less, xv, mv);
    lemma_scaled_bound(xv, t * more, mv);
    lemma_move(t, less, mv);
    lemma_move(t, more, mv);
    lemma_scaled_bound((t * less) * mv, xv * mv, more);
    lemma_scaled_bound(xv * mv, (t * more) * mv, less);
    lemma_move(tm, less, more);
    lemma_scaled_bound(next - half(), yv, less);
    lemma_scaled_bound(xv, d + half(), mv);
    lemma_scaled_bound(xv * mv, (d + half()) * mv, more);
    lemma_scaled_bound(d - half(), xv, mv);
    lemma_scaled_bound((d - half()) * mv, xv * mv, less);
    if policy.delay(later) != policy.max {
        lemma_scaled_bound(yv, next + half(), more);
    }
}

proof fn lemma_near_itself(t: real)
    ensures
        near(t, t, units(0)),
{
    reveal(near);
    lemma_times_one(t);
    assert(units(0) == 0 as real);
}

/// The base times a factor, in nanoseconds, is near their product.
proof fn lemma_scaled_near(policy: BackoffPolicy, f: Number)
    requires
        f.wf(),
    ensures
        near(
            f.times(seconds_of(policy.base as int)).value() * billion(),
            f.value() * (policy.base as real),
            units(170),
        ),
        f.times(seconds_of(policy.base as int)).wf(),
{
    let s = seconds_of(policy.base as int);
    let b = policy.base as real;
    let x = f.times(s);
    let g = billion();
    lemma_seconds_near(policy.base as int);
    lemma_times(f, s);
    lemma_value_positive(f);
    lemma_not_negative(s.value(), g);
    lemma_near_itself(f.value());
    lemma_near_product(f.value(), s.value() * g, f.value(), b, units(0), units(42));
    assert((2 as real) * (units(0) + units(42)) == units(84));
    lemma_regroup(f.value(), s.value(), g);
    lemma_near_of_close(x.value(), f.value() * s.value());
    lemma_near_scaled(x.value(), f.value() * s.value(), units(1), g);
    lemma_not_negative(f.value(), b);
    lemma_near_chain(
        x.value() * g,
        (f.value() * s.value()) * g,
        f.value() * b,
        units(1),
        units(84),
    );
    assert((2 as real) * (units(1) + units(84)) == units(170));
}

} // verus!
