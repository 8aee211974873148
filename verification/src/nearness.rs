//! How far computed numbers are from exact ones.

use vstd::prelude::*;

use crate::double::{
    close, lemma_nearest_near, lemma_over, lemma_plus, lemma_product_order, lemma_real_product,
    lemma_regroup, lemma_spread, lemma_swap, lemma_times, lemma_times_one,
    lemma_value_positive, lemma_whole_exact, precision, seconds_of, whole, Number,
};

verus! {

/// `v` is `t`, but for the share `e` of it.
#[verifier::opaque]
pub open spec fn near(v: real, t: real, e: real) -> bool {
    t * ((1 as real) - e) <= v <= t * ((1 as real) + e)
}

/// `k` times the precision of a number.
pub open spec fn units(k: int) -> real {
    k as real / (9007199254740992 as real)
}

pub proof fn lemma_not_negative(a: real, b: real)
    by (nonlinear_arith)
    requires
        a >= 0 as real,
        b >= 0 as real,
    ensures
        a * b >= 0 as real,
{
}

pub proof fn lemma_grows(t: real, a: real, b: real)
    by (nonlinear_arith)
    requires
        t >= 0 as real,
        a <= b,
    ensures
        t * a <= t * b,
{
}

proof fn lemma_both_grow(x: real, y: real, p: real, q: real)
    by (nonlinear_arith)
    requires
        0 as real <= x <= p,
        0 as real <= y <= q,
    ensures
        x * y <= p * q,
{
}

pub proof fn lemma_distribute(t: real, e: real)
    by (nonlinear_arith)
    ensures
        t * ((1 as real) + e) == t + t * e,
        t * ((1 as real) - e) == t - t * e,
{
}

/// Shares multiply to little more than their sum.
proof fn lemma_shares(e: real, f: real)
    by (nonlinear_arith)
    requires
        0 as real <= e <= 1 as real,
        0 as real <= f <= 1 as real,
    ensures
        ((1 as real) + e) * ((1 as real) + f) <= (1 as real) + (2 as real) * (e + f),
        ((1 as real) - e) * ((1 as real) - f) >= (1 as real) - (2 as real) * (e + f),
{
}

pub proof fn lemma_near_of_close(v: real, t: real)
    requires
        close(v, t),
    ensures
        near(v, t, units(1)),
{
    reveal(close);
    reveal(near);
    lemma_distribute(t, precision());
    assert(units(1) == precision());
}

/// What is near stays near if more is allowed.
pub proof fn lemma_near_wider(v: real, t: real, e: real, f: real)
    requires
        near(v, t, e),
        t >= 0 as real,
        e <= f,
    ensures
        near(v, t, f),
{
    reveal(near);
    lemma_grows(t, (1 as real) + e, (1 as real) + f);
    lemma_grows(t, (1 as real) - f, (1 as real) - e);
}

/// Products of what is near are near.
pub proof fn lemma_near_product(v: real, w: real, t: real, s: real, e: real, f: real)
    requires
        near(v, t, e),
        near(w, s, f),
        v >= 0 as real,
        w >= 0 as real,
        t >= 0 as real,
        s >= 0 as real,
        0 as real <= e <= 1 as real,
        0 as real <= f <= 1 as real,
    ensures
        near(v * w, t * s, (2 as real) * (e + f)),
{
    reveal(near);
    let one = 1 as real;
    let g = (2 as real) * (e + f);
    lemma_shares(e, f);
    lemma_not_negative(t, s);
    lemma_not_negative(t, one - e);
    lemma_not_negative(s, one - f);
    lemma_both_grow(v, w, t * (one + e), s * (one + f));
    lemma_both_grow(t * (one - e), s * (one - f), v, w);
    lemma_swap(t, one + e, s, one + f);
    lemma_swap(t, one - e, s, one - f);
    lemma_grows(t * s, (one + e) * (one + f), one + g);
    lemma_grows(t * s, one - g, (one - e) * (one - f));
}

/// What is near to what is near is near.
pub proof fn lemma_near_chain(v: real, t: real, s: real, e: real, f: real)
    requires
        near(v, t, e),
        near(t, s, f),
        s >= 0 as real,
        0 as real <= e <= 1 as real,
        0 as real <= f <= 1 as real,
    ensures
        near(v, s, (2 as real) * (e + f)),
{
    reveal(near);
    let one = 1 as real;
    let g = (2 as real) * (e + f);
    lemma_shares(f, e);
    lemma_scaled_bound(t, s * (one + f), one + e);
    lemma_scaled_bound(s * (one - f), t, one - e);
    lemma_regroup(s, one + f, one + e);
    lemma_regroup(s, one - f, one - e);
    lemma_grows(s, (one + f) * (one + e), one + g);
    lemma_grows(s, one - g, (one - f) * (one - e));
}

pub proof fn lemma_scaled_bound(a: real, b: real, k: real)
    by (nonlinear_arith)
    requires
        a <= b,
        k >= 0 as real,
    ensures
        a * k <= b * k,
{
}

/// Sums of what is near are near.
pub proof fn lemma_near_sum(v: real, w: real, t: real, s: real, e: real)
    requires
        near(v, t, e),
        near(w, s, e),
    ensures
        near(v + w, t + s, e),
{
    reveal(near);
    lemma_spread(t, s, (1 as real) + e);
    lemma_spread(t, s, (1 as real) - e);
}

/// Shares divide to little more than their sum.
proof fn lemma_divided_shares(e: real, f: real)
    by (nonlinear_arith)
    requires
        0 as real <= e <= (1 as real) / (8 as real),
        0 as real <= f <= (1 as real) / (8 as real),
    ensures
        ((1 as real) + (4 as real) * (e + f)) * ((1 as real) - f) >= (1 as real) + e,
        ((1 as real) - (4 as real) * (e + f)) * ((1 as real) + f) <= (1 as real) - e,
{
}

/// A quotient of what is near is near: of `v`, where `v * w` is near `t`.
pub proof fn lemma_near_quotient(v: real, w: real, t: real, s: real, e: real, f: real)
    requires
        near(v * w, t, e),
        near(w, s, f),
        v >= 0 as real,
        t >= 0 as real,
        0 as real <= e <= (1 as real) / (8 as real),
        0 as real <= f <= (1 as real) / (8 as real),
    ensures
        near(v * s, t, (4 as real) * (e + f)),
{
    reveal(near);
    let one = 1 as real;
    let g = (4 as real) * (e + f);
    let z = v * s;
    lemma_divided_shares(e, f);
    lemma_grows(v, w, s * (one + f));
    lemma_grows(v, s * (one - f), w);
    lemma_regroup(v, s, one + f);
    lemma_regroup(v, s, one - f);
    lemma_grows(t, one + e, (one + g) * (one - f));
    lemma_grows(t, (one - g) * (one + f), one - e);
    lemma_regroup(t, one + g, one - f);
    lemma_regroup(t, one - g, one + f);
    lemma_product_order(z, t * (one + g), one - f);
    lemma_product_order(t * (one - g), z, one + f);
}

/// Scaling keeps what is near near.
pub proof fn lemma_near_scaled(v: real, t: real, e: real, k: real)
    requires
        near(v, t, e),
        k > 0 as real,
    ensures
        near(v * k, t * k, e),
{
    reveal(near);
    let one = 1 as real;
    lemma_scaled_bound(v, t * (one + e), k);
    lemma_scaled_bound(t * (one - e), v, k);
    lemma_move(t, one + e, k);
    lemma_move(t, one - e, k);
}

/// What is near after scaling was near before.
pub proof fn lemma_near_unscaled(v: real, t: real, e: real, k: real)
    requires
        near(v * k, t * k, e),
        k > 0 as real,
    ensures
        near(v, t, e),
{
    reveal(near);
    let one = 1 as real;
    lemma_move(t, one + e, k);
    lemma_move(t, one - e, k);
    lemma_product_order(v, t * (one + e), k);
    lemma_product_order(t * (one - e), v, k);
}

pub proof fn lemma_move(t: real, a: real, k: real)
    by (nonlinear_arith)
    ensures
        (t * a) * k == (t * k) * a,
{
}

pub proof fn lemma_commute(a: real, b: real)
    by (nonlinear_arith)
    ensures
        a * b == b * a,
{
}

/// Whole numbers are near what they stand for.
pub proof fn lemma_whole_near(n: int)
    requires
        n >= 0,
    ensures
        near(whole(n).value(), n as real, units(1)),
        whole(n).wf(),
        whole(n).value() >= 0 as real,
        whole(n).is_zero() <==> n == 0,
{
    lemma_nearest_near(n, 1);
    lemma_times_one(whole(n).value());
    lemma_near_of_close(whole(n).value(), n as real);
    lemma_value_positive(whole(n));
}

/// Nanoseconds in a second.
pub open spec fn billion() -> real {
    1_000_000_000 as real
}

/// Seconds are near the nanoseconds that they stand for.
pub proof fn lemma_seconds_near(n: int)
    requires
        n >= 0,
    ensures
        near(seconds_of(n).value() * billion(), n as real, units(42)),
        seconds_of(n).wf(),
        seconds_of(n).value() >= 0 as real,
{
    let g = billion();
    let a = n / 1_000_000_000;
    let b = n % 1_000_000_000;
    let x = whole(a);
    let y = whole(1_000_000_000);
    let r = whole(b).over(y);
    lemma_whole_near(a);
    lemma_whole_near(b);
    lemma_whole_near(1_000_000_000);
    lemma_over(whole(b), y);
    lemma_value_positive(r);
    lemma_near_of_close(r.value() * y.value(), whole(b).value());
    lemma_near_chain(r.value() * y.value(), whole(b).value(), b as real, units(1), units(1));
    assert((2 as real) * (units(1) + units(1)) == units(4));
    lemma_near_quotient(r.value(), y.value(), b as real, g, units(4), units(1));
    assert((4 as real) * (units(4) + units(1)) == units(20));
    lemma_near_wider(x.value(), a as real, units(1), units(20));
    lemma_near_scaled(x.value(), a as real, units(20), g);
    lemma_near_sum(x.value() * g, r.value() * g, (a as real) * g, b as real, units(20));
    lemma_spread(x.value(), r.value(), g);
    lemma_real_product(a, 1_000_000_000);
    assert((a as real) * g + b as real == n as real);
    lemma_plus(x, r);
    let sum = x.value() + r.value();
    lemma_near_of_close(x.plus(r).value(), sum);
    lemma_near_scaled(x.plus(r).value(), sum, units(1), g);
    lemma_near_chain(x.plus(r).value() * g, sum * g, n as real, units(1), units(20));
    assert((2 as real) * (units(1) + units(20)) == units(42));
    lemma_value_positive(seconds_of(n));
}

/// Seconds are not zero if there are nanoseconds.
pub proof fn lemma_seconds_positive(n: int)
    requires
        n > 0,
    ensures
        !seconds_of(n).is_zero(),
        seconds_of(n).value() > 0 as real,
{
    reveal(near);
    lemma_seconds_near(n);
    let v = seconds_of(n).value();
    let e = units(42);
    lemma_value_positive(seconds_of(n));
    assert(e <= (1 as real) / (2 as real));
    lemma_grows(n as real, (1 as real) / (2 as real), (1 as real) - e);
    if v == 0 as real {
        assert((0 as real) * billion() == 0 as real) by (nonlinear_arith);
    }
}

/// A rate is near the share of an interval.
pub proof fn lemma_rate_near(c: int, i: int)
    requires
        c >= 0,
        i > 0,
    ensures
        near(
            whole(c).over(seconds_of(i)).value() * (i as real),
            (c as real) * billion(),
            units(184),
        ),
        whole(c).over(seconds_of(i)).wf(),
        whole(c).over(seconds_of(i)).value() >= 0 as real,
        whole(c).over(seconds_of(i)).is_zero() <==> c == 0,
{
    let g = billion();
    let s = seconds_of(i);
    let x = whole(c);
    let r = x.over(s);
    lemma_whole_near(c);
    lemma_seconds_near(i);
    lemma_seconds_positive(i);
    lemma_over(x, s);
    lemma_value_positive(r);
    lemma_near_of_close(r.value() * s.value(), x.value());
    lemma_near_chain(r.value() * s.value(), x.value(), c as real, units(1), units(1));
    assert((2 as real) * (units(1) + units(1)) == units(4));
    lemma_near_scaled(r.value() * s.value(), c as real, units(4), g);
    lemma_regroup(r.value(), s.value(), g);
    lemma_not_negative(c as real, g);
    lemma_near_quotient(
        r.value(),
        s.value() * g,
        (c as real) * g,
        i as real,
        units(4),
        units(42),
    );
    assert((4 as real) * (units(4) + units(42)) == units(184));
}

/// What comes in some nanoseconds is near their share of an interval.
pub proof fn lemma_share_near(c: int, i: int, d: int)
    requires
        c >= 0,
        i > 0,
        d >= 0,
    ensures
        near(
            whole(c).over(seconds_of(i)).times(seconds_of(d)).value() * (i as real),
            (c * d) as real,
            units(906),
        ),
        whole(c).over(seconds_of(i)).times(seconds_of(d)).wf(),
        whole(c).over(seconds_of(i)).times(seconds_of(d)).value() >= 0 as real,
{
    let g = billion();
    let r = whole(c).over(seconds_of(i));
    let s = seconds_of(d);
    let x = r.times(s);
    let ir = i as real;
    let dr = d as real;
    let cr = c as real;
    lemma_rate_near(c, i);
    lemma_seconds_near(d);
    lemma_times(r, s);
    lemma_value_positive(x);
    lemma_not_negative(r.value(), ir);
    lemma_not_negative(s.value(), g);
    lemma_not_negative(cr, g);
    lemma_near_product(r.value() * ir, s.value() * g, cr * g, dr, units(184), units(42));
    assert((2 as real) * (units(184) + units(42)) == units(452));
    let p = r.value() * s.value();
    let k = ir * g;
    lemma_swap(r.value(), ir, s.value(), g);
    lemma_not_negative(cr, dr);
    lemma_near_of_close(x.value(), p);
    assert(k > 0 as real) by (nonlinear_arith)
        requires
            k == ir * g,
            ir > 0 as real,
            g > 0 as real,
    ;
    lemma_near_scaled(x.value(), p, units(1), k);
    lemma_move(cr, g, dr);
    lemma_not_negative(cr * dr, g);
    lemma_near_chain(x.value() * k, p * k, (cr * dr) * g, units(1), units(452));
    assert((2 as real) * (units(1) + units(452)) == units(906));
    lemma_regroup(x.value(), ir, g);
    lemma_near_unscaled(x.value() * ir, cr * dr, units(906), g);
    lemma_real_product(c, d);
}

/// Bounds of what is near a number of at most `most`.
pub proof fn lemma_near_bounds(v: real, t: real, e: real, most: real)
    requires
        near(v, t, e),
        0 as real <= t <= most,
        e >= 0 as real,
    ensures
        t - most * e <= v <= t + most * e,
{
    reveal(near);
    lemma_distribute(t, e);
    lemma_scaled_bound(t, most, e);
}

/// What comes in at least the nanoseconds that were computed for `missing` at the rate `rate` is
/// hardly less than what is missing.
pub proof fn lemma_missing_comes(missing: Number, rate: Number, nanos: int)
    requires
        missing.wf(),
        rate.wf(),
        !rate.is_zero(),
        nanos >= 0,
        nanos as real >= missing.over(rate).times(whole(1_000_000_000)).value(),
    ensures
        rate.times(seconds_of(nanos)).value() >= missing.value() * ((1 as real) - units(180)),
{
    let g = billion();
    let one = 1 as real;
    let q = missing.over(rate);
    let big = whole(1_000_000_000);
    let z = q.times(big);
    let s = seconds_of(nanos);
    let share = rate.times(s);
    let r = rate.value();
    let m = missing.value();
    let d = nanos as real;
    lemma_value_positive(missing);
    lemma_value_positive(rate);
    lemma_over(missing, rate);
    lemma_value_positive(q);
    lemma_whole_exact(1_000_000_000);
    lemma_times(q, big);
    lemma_value_positive(z);
    lemma_seconds_near(nanos);
    lemma_times(rate, s);
    lemma_value_positive(share);
    lemma_near_of_close(q.value() * r, m);
    lemma_near_scaled(q.value() * r, m, units(1), g);
    lemma_near_of_close(z.value(), q.value() * g);
    lemma_near_scaled(z.value(), q.value() * g, units(1), r);
    lemma_move(q.value(), g, r);
    lemma_not_negative(m, g);
    lemma_near_chain(
        z.value() * r,
        (q.value() * r) * g,
        m * g,
        units(1),
        units(1),
    );
    assert((2 as real) * (units(1) + units(1)) == units(4));
    lemma_near_of_close(share.value(), r * s.value());
    lemma_near_scaled(share.value(), r * s.value(), units(1), g);
    lemma_near_scaled(s.value() * g, d, units(42), r);
    lemma_move(r, s.value(), g);
    lemma_commute(r * g, s.value());
    lemma_regroup(s.value(), r, g);
    lemma_move(s.value(), g, r);
    lemma_not_negative(d, r);
    lemma_commute(s.value(), r);
    lemma_near_chain(share.value() * g, (s.value() * g) * r, d * r, units(1), units(42));
    assert((2 as real) * (units(1) + units(42)) == units(86));
    reveal(near);
    let a = one - units(4);
    let b = one - units(86);
    lemma_shares(units(4), units(86));
    assert((2 as real) * (units(4) + units(86)) == units(180));
    lemma_scaled_bound(z.value(), d, r);
    lemma_scaled_bound((m * g) * a, d * r, b);
    lemma_regroup(m * g, a, b);
    lemma_grows(m * g, one - units(180), a * b);
    lemma_move(m, g, one - units(180));
    lemma_product_order(m * (one - units(180)), share.value(), g);
}

} // verus!
