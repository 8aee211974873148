//! The time between probes at a given rate.

use vstd::arithmetic::power2::*;
use vstd::prelude::*;

use crate::double::{
    capped_nanos, lemma_nanos_monotone, lemma_nanos_near, lemma_nearest_monotone,
    lemma_nearest_scaled, lemma_over, lemma_value_positive, lemma_whole_exact, lemma_whole_one, nanos_of, whole, Double, Number,
};
use crate::nearness::{
    billion, lemma_grows, lemma_near_bounds, lemma_near_of_close, lemma_near_quotient,
    lemma_scaled_bound, lemma_whole_near, near, units,
};

verus! {

/// Stands for a time between probes that rounds to zero, in nanoseconds.
pub const MIN_INTERVAL_NANOS: u128 = 1_000;

/// The time between `rate` probes per second in nanoseconds: the reciprocal of the rate as a
/// number of seconds, rounded to whole nanoseconds. A rate of zero counts as one, and
/// [`MIN_INTERVAL_NANOS`] stands for a time that rounds to zero.
pub open spec fn interval_of(rate: nat) -> int {
    let r = if rate == 0 {
        1
    } else {
        rate as int
    };
    let nanos = nanos_of(whole(1).over(whole(r)));
    if nanos == 0 {
        MIN_INTERVAL_NANOS as int
    } else {
        nanos
    }
}

/// No reciprocal is over two seconds.
proof fn lemma_reciprocal(rate: int)
    requires
        rate >= 1,
    ensures
        nanos_of(whole(1).over(whole(rate))) <= 2_000_000_000,
{
    let x = whole(1).over(whole(rate));
    lemma_whole_one();
    lemma_whole_near(rate);
    lemma_nearest_monotone(1, 1, rate, 1);
    lemma_over(whole(1), whole(rate));
    lemma_value_positive(x);
    lemma_near_of_close(x.value() * whole(rate).value(), 1 as real);
    lemma_near_bounds(x.value() * whole(rate).value(), 1 as real, units(1), 1 as real);
    lemma_grows(x.value(), 1 as real, whole(rate).value());
    assert(x.value() * (1 as real) == x.value()) by (nonlinear_arith);
    lemma_whole_exact(2);
    lemma2_to64();
    lemma2_to64_rest();
    lemma_nearest_scaled(1, 1);
    assert(whole(2) == (Number { mantissa: 0x10000000000000, exponent: -51 }));
    lemma_nanos_monotone(x, whole(2));
    assert(nanos_of(whole(2)) == 2_000_000_000);
}

/// The time between `rate` probes per second in nanoseconds.
pub fn rate_interval(rate: u64) -> (r: u128)
    ensures
        r == interval_of(rate as nat),
        r >= 1,
{
    let per_second: u64 = if rate == 0 {
        1
    } else {
        rate
    };
    proof {
        lemma_reciprocal(per_second as int);
    }
    let nanos: u128 = capped_nanos(
        Double::whole(1).over(Double::whole(per_second as u128)),
        2_000_000_000,
    );
    if nanos == 0 {
        MIN_INTERVAL_NANOS
    } else {
        nanos
    }
}

/// As many times between probes as there are probes in a second make a second, to the nearest
/// nanosecond of each and but for rounding. Rates at which that would be no time at all have a
/// time of their own.
pub proof fn law_probes_share_a_second(rate: nat)
    requires
        rate > 0,
    ensures
        ({
            let n = interval_of(rate) as real;
            let two = 2 as real;
            let more = (two * billion()) * ((1 as real) + units(8));
            let less = (two * billion()) * ((1 as real) - units(8));
            ||| (two * n - (1 as real)) * (rate as real) <= more && (two * n + (1 as real)) * (
            rate as real) >= less
            ||| interval_of(rate) == 1_000 && rate as real >= less
        }),
        interval_of(0) == interval_of(1),
{
    let r = rate as int;
    let x = whole(1).over(whole(r));
    let v = x.value();
    let w = whole(r).value();
    let k = rate as real;
    let g = billion();
    let one = 1 as real;
    let two = 2 as real;
    lemma_whole_one();
    lemma_whole_near(r);
    lemma_over(whole(1), whole(r));
    lemma_value_positive(x);
    lemma_near_of_close(v * w, one);
    lemma_near_quotient(v, w, one, k, units(1), units(1));
    assert((4 as real) * (units(1) + units(1)) == units(8));
    reveal(near);
    lemma_nanos_near(x);
    let n = nanos_of(x) as real;
    lemma_scaled_bound(two * n - one, two * (v * g), k);
    lemma_scaled_bound(two * (v * g), two * n + one, k);
    lemma_second(v, g, k);
    lemma_grows(two * g, v * k, one + units(8));
    lemma_grows(two * g, one - units(8), v * k);
    if nanos_of(x) == 0 {
        assert((two * n + one) * k == k) by (nonlinear_arith)
            requires
                n == 0 as real,
                one == 1 as real,
        ;
    }
}

proof fn lemma_second(v: real, g: real, k: real)
    by (nonlinear_arith)
    ensures
        ((2 as real) * (v * g)) * k == ((2 as real) * g) * (v * k),
{
}

} // verus!
