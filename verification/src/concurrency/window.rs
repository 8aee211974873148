//! Concurrency windows with fractional sizes.
//!
//! A size is kept the way a double-precision number keeps it: as a multiple of 2^-52 with
//! 53 significant bits, rounded to the nearest such number and to the even one on a tie.

use vstd::arithmetic::power2::*;
use vstd::prelude::*;

verus! {

/// The size one, in units of 2^-52.
pub const ONE: u128 = 0x10000000000000;

/// Numbers of units below this one have at most 53 bits.
pub const PRECISION: u128 = 0x20000000000000;

/// Largest size that a window can have, in units: 2^64 times [`ONE`].
pub const CEILING: u128 = 0x100000000000000000000000000000;

/// The distance between neighbouring numbers with 53 significant bits around `n`.
pub open spec fn spacing(n: nat) -> nat
    decreases n,
{
    if n < PRECISION {
        1
    } else {
        2 * spacing(n / 2)
    }
}

/// `n` rounded to 53 significant bits, to the even neighbour on a tie.
pub open spec fn rounded(n: nat) -> nat {
    let p = spacing(n);
    let q = n / p;
    let r = n % p;
    if 2 * r > p || (2 * r == p && q % 2 == 1) {
        (q + 1) * p
    } else {
        q * p
    }
}

/// `n` has at most 53 significant bits.
pub open spec fn exact(n: nat) -> bool {
    n % spacing(n) == 0
}

proof fn lemma_spacing(n: nat)
    ensures
        1 <= spacing(n),
        n >= PRECISION ==> spacing(n) >= 2,
        n / spacing(n) < PRECISION,
        n >= ONE ==> n / spacing(n) >= ONE,
        spacing(n) <= n || n < PRECISION,
    decreases n,
{
    if n >= PRECISION {
        lemma_spacing(n / 2);
        let s = spacing(n / 2);
        assert(n / (2 * s) == (n / 2) / s) by {
            vstd::arithmetic::div_mod::lemma_div_denominator(n as int, 2, s as int);
        }
    }
}

/// Larger numbers are at least as far apart; where they are farther apart, twice as far.
proof fn lemma_spacing_monotone(a: nat, b: nat)
    requires
        a <= b,
    ensures
        spacing(a) == spacing(b) || 2 * spacing(a) <= spacing(b),
    decreases b,
{
    lemma_spacing(a);
    lemma_spacing(b);
    if a >= PRECISION {
        lemma_spacing_monotone(a / 2, b / 2);
    }
}

/// A number of 53 bits, scaled by the spacing of another number, has that spacing.
proof fn lemma_spacing_scaled(n: nat, q: nat)
    requires
        ONE <= q < PRECISION,
        n >= ONE,
    ensures
        spacing(q * spacing(n)) == spacing(n),
    decreases n,
{
    if n >= PRECISION {
        let s = spacing(n / 2);
        lemma_spacing(n / 2);
        lemma_spacing_scaled(n / 2, q);
        assert(q * (2 * s) == 2 * (q * s)) by (nonlinear_arith);
        assert(q * s >= ONE) by (nonlinear_arith)
            requires
                q >= ONE,
                s >= 1,
        ;
        assert((2 * (q * s)) / 2 == q * s);
    } else {
        assert(q * 1 == q);
    }
}

/// Rounding gives a number with 53 significant bits.
proof fn lemma_rounded_exact(n: nat)
    requires
        n >= ONE,
    ensures
        exact(rounded(n)),
{
    let p = spacing(n);
    let q = n / p;
    lemma_spacing(n);
    let up = if 2 * (n % p) > p || (2 * (n % p) == p && q % 2 == 1) {
        q + 1
    } else {
        q
    };
    assert(rounded(n) == up * p);
    if up < PRECISION {
        lemma_spacing_scaled(n, up);
        assert((up * p) % p == 0) by {
            vstd::arithmetic::div_mod::lemma_mod_multiples_basic(up as int, p as int);
        }
    } else {
        assert(up == PRECISION);
        assert(PRECISION * p == 2 * (ONE * p)) by (nonlinear_arith)
            requires
                PRECISION == 2 * ONE,
        ;
        lemma_spacing_scaled(n, ONE as nat);
        let half: nat = ONE as nat * p;
        assert(half >= ONE) by (nonlinear_arith)
            requires
                half == ONE * p,
                p >= 1,
        ;
        assert((2 * half) / 2 == half);
        assert(spacing(up * p) == 2 * p);
        assert((up * p) % (2 * p) == 0) by {
            assert(up * p == ONE * (2 * p)) by (nonlinear_arith)
                requires
                    up == 2 * ONE,
            ;
            vstd::arithmetic::div_mod::lemma_mod_multiples_basic(ONE as int, 2 * p as int);
        }
    }
}

/// Rounding a larger number does not fall below a number with 53 significant bits.
proof fn lemma_rounded_at_least(c: nat, n: nat)
    requires
        exact(c),
        c <= n,
        n >= ONE,
    ensures
        rounded(n) >= c,
{
    let p = spacing(n);
    let s = spacing(c);
    lemma_spacing(n);
    lemma_spacing(c);
    lemma_spacing_monotone(c, n);
    let q = n / p;
    assert(rounded(n) >= q * p) by (nonlinear_arith)
        requires
            rounded(n) == q * p || rounded(n) == (q + 1) * p,
            p >= 1,
    ;
    if s == p {
        vstd::arithmetic::div_mod::lemma_fundamental_div_mod(c as int, p as int);
        vstd::arithmetic::div_mod::lemma_div_is_ordered(c as int, n as int, p as int);
        assert(q * p >= (c / p) * p) by (nonlinear_arith)
            requires
                q >= c / p,
                p >= 1,
        ;
        assert(p * (c / p) == (c / p) * p) by (nonlinear_arith);
    } else {
        vstd::arithmetic::div_mod::lemma_fundamental_div_mod(c as int, s as int);
        assert(c < PRECISION * s) by (nonlinear_arith)
            requires
                c == s * (c / s),
                c / s < PRECISION,
                s >= 1,
        ;
        assert(PRECISION * s <= ONE * p) by (nonlinear_arith)
            requires
                PRECISION == 2 * ONE,
                2 * s <= p,
        ;
        assert(ONE * p <= q * p) by (nonlinear_arith)
            requires
                ONE <= q,
        ;
    }
}

/// Rounding raises a number by at most half its spacing.
proof fn lemma_rounded_close(n: nat)
    requires
        n >= ONE,
    ensures
        2 * rounded(n) <= 2 * n + spacing(n),
{
    let p = spacing(n);
    lemma_spacing(n);
    vstd::arithmetic::div_mod::lemma_fundamental_div_mod(n as int, p as int);
    vstd::arithmetic::div_mod::lemma_mod_bound(n as int, p as int);
    let q = n / p;
    assert((q + 1) * p == q * p + p) by (nonlinear_arith);
    assert(p * q == q * p) by (nonlinear_arith);
}

/// Half of a number with 53 significant bits has them too, and nothing is lost.
proof fn lemma_half_exact(n: nat)
    requires
        exact(n),
        n >= PRECISION,
    ensures
        exact(n / 2),
        n % 2 == 0,
{
    let s = spacing(n / 2);
    lemma_spacing(n / 2);
    let k = n / (2 * s);
    vstd::arithmetic::div_mod::lemma_fundamental_div_mod(n as int, 2 * s as int);
    assert((2 * s) * k == 2 * (k * s)) by (nonlinear_arith);
    assert(n / 2 == k * s);
    vstd::arithmetic::div_mod::lemma_mod_multiples_basic(k as int, s as int);
}

/// Rounds `n` to 53 significant bits.
fn round(n: u128) -> (r: u128)
    requires
        ONE <= n <= 2 * CEILING,
    ensures
        r == rounded(n as nat),
{
    let mut p: u128 = 1;
    let mut q: u128 = n;
    while q >= PRECISION
        invariant
            n <= 2 * CEILING,
            p >= 1,
            q == n / p,
            p * q <= n,
            spacing(n as nat) == p * spacing(q as nat),
        decreases q,
    {
        assert(2 * p <= p * q) by (nonlinear_arith)
            requires
                q >= 2,
                p >= 1,
        ;
        proof {
            let s = spacing((q / 2) as nat);
            assert(p * (2 * s) == (2 * p) * s) by (nonlinear_arith);
            vstd::arithmetic::div_mod::lemma_div_denominator(n as int, p as int, 2);
            assert((2 * p) * (q / 2) <= p * q) by (nonlinear_arith)
                requires
                    2 * (q / 2) <= q,
                    p >= 1,
            ;
        }
        q = q / 2;
        p = p * 2;
    }
    assert(p * 1 == p);
    assert(p * q == q * p) by (nonlinear_arith);
    let r: u128 = n - q * p;
    proof {
        vstd::arithmetic::div_mod::lemma_fundamental_div_mod(n as int, p as int);
        vstd::arithmetic::div_mod::lemma_mod_bound(n as int, p as int);
        assert((q + 1) * p == q * p + p) by (nonlinear_arith);
    }
    if 2 * r > p || (2 * r == p && q % 2 == 1) {
        (q + 1) * p
    } else {
        q * p
    }
}

/// A window: how many tasks may run at once, which grows on success and shrinks on failure.
#[derive(Debug, Clone, Copy, PartialEq, Eq, Structural)]
pub struct WindowState {
    /// Size in units of 2^-52.
    pub current: u128,
    /// Largest size in units of 2^-52.
    pub max: u128,
    /// Number of tasks that run.
    pub inflight: usize,
}

impl WindowState {
    /// The size lies between one and the largest, and both have 53 significant bits.
    pub open spec fn wf(&self) -> bool {
        &&& ONE <= self.current <= self.max <= CEILING
        &&& exact(self.current as nat)
        &&& exact(self.max as nat)
    }

    /// The window of full size that is configured with `max`.
    pub open spec fn fresh(max: usize) -> WindowState {
        let size = rounded((if max == 0 { 1 } else { max as nat }) * ONE as nat) as u128;
        WindowState { current: size, max: size, inflight: 0 }
    }

    /// How many tasks may run at once: the size without its fraction.
    pub open spec fn limit_of(&self) -> usize {
        if self.current / ONE > usize::MAX {
            usize::MAX
        } else {
            (self.current / ONE) as usize
        }
    }

    /// The window after a success: one larger, but not over the largest size.
    pub open spec fn increased(self) -> WindowState {
        let grown = rounded((self.current + ONE) as nat);
        WindowState {
            current: if grown <= self.max {
                grown as u128
            } else {
                self.max
            },
            ..self
        }
    }

    /// The window after a failure: half as large, but not under one.
    pub open spec fn decreased(self) -> WindowState {
        let half = (self.current / 2) as u128;
        WindowState {
            current: if half >= ONE {
                half
            } else {
                ONE
            },
            ..self
        }
    }

    pub fn new(max: usize) -> (r: WindowState)
        ensures
            r == WindowState::fresh(max),
            r.wf(),
            r.limit_of() >= 1,
            max <= PRECISION ==> r.limit_of() == (if max == 0 {
                1
            } else {
                max
            }),
    {
        let max: usize = if max == 0 {
            1
        } else {
            max
        };
        let units: u128 = (max as u128) * ONE;
        proof {
            let n = units as nat;
            assert(n == max as nat * ONE as nat);
            lemma_rounded_exact(n);
            lemma_rounded_max(max as nat);
        }
        let size: u128 = round(units);
        WindowState { current: size, max: size, inflight: 0 }
    }

    pub fn limit(&self) -> (r: usize)
        requires
            self.wf(),
        ensures
            r == self.limit_of(),
            r >= 1,
    {
        let whole: u128 = self.current / ONE;
        if whole > usize::MAX as u128 {
            usize::MAX
        } else {
            whole as usize
        }
    }

    /// Grows the window. Returns whether it is now larger than its limit was.
    pub fn increase(&mut self) -> (r: bool)
        requires
            old(self).wf(),
        ensures
            *final(self) == old(self).increased(),
            final(self).wf(),
            r == (final(self).current > (old(self).current / ONE) * ONE),
    {
        let before: u128 = (self.current / ONE) * ONE;
        proof {
            lemma_rounded_exact((self.current + ONE) as nat);
            lemma_rounded_at_least(self.current as nat, (self.current + ONE) as nat);
        }
        let grown: u128 = round(self.current + ONE);
        self.current = if grown <= self.max {
            grown
        } else {
            self.max
        };
        self.current > before
    }

    /// Shrinks the window.
    pub fn decrease(&mut self)
        requires
            old(self).wf(),
        ensures
            *final(self) == old(self).decreased(),
            final(self).wf(),
    {
        proof {
            if self.current >= PRECISION {
                lemma_half_exact(self.current as nat);
            }
            assert(exact(ONE as nat));
        }
        let half: u128 = self.current / 2;
        self.current = if half >= ONE {
            half
        } else {
            ONE
        };
    }
}

/// Rounding a smaller number does not go over a number with 53 significant bits.
proof fn lemma_rounded_at_most(n: nat, c: nat)
    requires
        exact(c),
        ONE <= n <= c,
    ensures
        rounded(n) <= c,
{
    let p = spacing(n);
    let s = spacing(c);
    let q = n / p;
    lemma_spacing(n);
    lemma_spacing(c);
    lemma_spacing_monotone(n, c);
    vstd::arithmetic::div_mod::lemma_fundamental_div_mod(n as int, p as int);
    vstd::arithmetic::div_mod::lemma_mod_bound(n as int, p as int);
    vstd::arithmetic::div_mod::lemma_fundamental_div_mod(c as int, s as int);
    assert(p * q == q * p) by (nonlinear_arith);
    if s == p {
        let k = c / s;
        if n == c {
            assert(n % p == 0);
        } else {
            assert(q < k) by (nonlinear_arith)
                requires
                    q * p <= n,
                    n < c,
                    c == p * k,
                    p >= 1,
            ;
            assert((q + 1) * p <= p * k) by (nonlinear_arith)
                requires
                    q + 1 <= k,
                    p >= 1,
            ;
            assert(q * p <= n);
        }
    } else {
        let k = c / s;
        assert((q + 1) * p <= s * k) by (nonlinear_arith)
            requires
                q + 1 <= 2 * ONE,
                k >= ONE,
                2 * p <= s,
        ;
        assert(q * p <= n);
    }
}

/// A number with 53 significant bits is its own rounding.
proof fn lemma_exact_rounds_to_itself(n: nat)
    requires
        exact(n),
    ensures
        rounded(n) == n,
{
    let p = spacing(n);
    lemma_spacing(n);
    vstd::arithmetic::div_mod::lemma_fundamental_div_mod(n as int, p as int);
    assert(p * (n / p) == (n / p) * p) by (nonlinear_arith);
}

/// Twice a number with 53 significant bits has them too.
proof fn lemma_exact_scaled(n: nat, k: nat)
    requires
        exact(n),
    ensures
        exact(n * pow2(k)),
    decreases k,
{
    if k == 0 {
        lemma2_to64();
        assert(n * 1 == n);
    } else {
        let m = n * pow2((k - 1) as nat);
        lemma_exact_scaled(n, (k - 1) as nat);
        lemma_pow2_unfold(k);
        assert(n * (2 * pow2((k - 1) as nat)) == 2 * m) by (nonlinear_arith)
            requires
                m == n * pow2((k - 1) as nat),
        ;
        if 2 * m >= PRECISION {
            assert((2 * m) / 2 == m);
            let s = spacing(m);
            lemma_spacing(m);
            vstd::arithmetic::div_mod::lemma_fundamental_div_mod(m as int, s as int);
            assert(2 * m == (m / s) * (2 * s)) by (nonlinear_arith)
                requires
                    m == s * (m / s),
            ;
            vstd::arithmetic::div_mod::lemma_mod_multiples_basic((m / s) as int, 2 * s as int);
        }
    }
}

/// The largest window of all, and configured sizes of up to 53 bits, need no rounding.
proof fn lemma_rounded_max(max: nat)
    requires
        1 <= max <= 0xffff_ffff_ffff_ffff,
    ensures
        ONE <= rounded(max * ONE as nat) <= CEILING,
        max <= PRECISION ==> rounded(max * ONE as nat) == max * ONE as nat,
{
    let n = max * ONE as nat;
    lemma2_to64();
    assert(exact(ONE as nat));
    lemma_exact_scaled(ONE as nat, 64);
    assert(ONE as nat * pow2(64) == CEILING);
    lemma_rounded_at_least(ONE as nat, n);
    lemma_rounded_at_most(n, CEILING as nat);
    if max <= PRECISION {
        assert(exact(max)) by {
            if max == PRECISION {
                assert(spacing(ONE as nat) == 1);
                assert(max / 2 == ONE);
            }
        }
        lemma_exact_scaled(max, 52);
        lemma2_to64_rest();
        assert(pow2(52) == ONE);
        lemma_exact_rounds_to_itself(n);
    }
}

/// A fresh window is valid.
pub proof fn lemma_fresh_wf(max: usize)
    ensures
        WindowState::fresh(max).wf(),
{
    let n: nat = if max == 0 {
        1
    } else {
        max as nat
    };
    lemma_rounded_max(n);
    assert(n * ONE as nat >= ONE) by (nonlinear_arith)
        requires
            n >= 1,
    ;
    lemma_rounded_exact(n * ONE as nat);
}

/// What a success does to a window.
pub proof fn lemma_success(w: WindowState)
    requires
        w.wf(),
    ensures
        w.current <= w.increased().current <= w.max,
        w.current + ONE >= w.max ==> w.increased().current == w.max,
        w.current + ONE <= w.max && exact((w.current + ONE) as nat) ==> w.increased().current
            == w.current + ONE,
        w.current % ONE == 0 && w.current + ONE <= w.max && w.max <= PRECISION * ONE
            ==> w.increased().current == w.current + ONE && (w.current as int / ONE as int
            >= usize::MAX || w.increased().limit_of() == w.limit_of() + 1),
{
    let n = (w.current + ONE) as nat;
    lemma_rounded_at_least(w.current as nat, n);
    if n >= w.max {
        lemma_rounded_at_least(w.max as nat, n);
    }
    if exact(n) {
        lemma_exact_rounds_to_itself(n);
    }
    if w.current % ONE == 0 && n <= w.max && w.max <= PRECISION * ONE {
        let k = n / ONE as nat;
        assert(n == k * ONE as nat);
        assert(1 <= k <= PRECISION);
        lemma_rounded_max(k);
    }
}

/// A window starts at the size that is configured.
pub proof fn law_window_starts_full(max: usize)
    requires
        max <= PRECISION,
    ensures
        WindowState::fresh(max).limit_of() == (if max == 0 {
            1
        } else {
            max
        }),
{
    lemma_rounded_max(if max == 0 { 1 } else { max as nat });
}

/// The limit of a window lies between one and the configured size.
pub proof fn law_limit_in_range(w: WindowState, max: usize)
    requires
        w.wf(),
        w.max == WindowState::fresh(max).max,
        max <= PRECISION,
    ensures
        1 <= w.limit_of(),
        max > 0 ==> w.limit_of() <= max,
{
    if max > 0 {
        lemma_rounded_max(max as nat);
    }
}

/// A failure halves the limit, down to one.
pub proof fn law_failure_halves_limit(w: WindowState)
    requires
        w.wf(),
        w.current / ONE <= usize::MAX,
    ensures
        w.decreased().limit_of() == (if w.limit_of() < 2 {
            1
        } else {
            w.limit_of() / 2
        }),
{
}

/// A success never lowers the limit; below 2^53 it raises it by at most two.
pub proof fn law_success_raises_limit(w: WindowState)
    requires
        w.wf(),
    ensures
        w.limit_of() <= w.increased().limit_of(),
        w.current + ONE < PRECISION * ONE ==> w.increased().limit_of() <= w.limit_of() + 2,
{
    let n = (w.current + ONE) as nat;
    let p = spacing(n);
    lemma_rounded_at_least(w.current as nat, n);
    if n < PRECISION * ONE {
        lemma_rounded_close(n);
        lemma_spacing(n);
        vstd::arithmetic::div_mod::lemma_fundamental_div_mod(n as int, p as int);
        vstd::arithmetic::div_mod::lemma_mod_bound(n as int, p as int);
        assert(p < 2 * ONE) by (nonlinear_arith)
            requires
                n / p >= ONE,
                p * (n / p) <= n,
                n < 2 * ONE * ONE,
                ONE >= 1,
        ;
    }
}

/// At its largest size a window no longer grows.
pub proof fn law_full_window_stays(w: WindowState)
    requires
        w.wf(),
        w.current == w.max,
    ensures
        w.increased() == w,
{
    lemma_rounded_at_least(w.current as nat, (w.current + ONE) as nat);
}

/// A success adds one to the limit, as long as the window has room for it and the sum needs
/// no rounding.
pub proof fn law_success_adds_one(w: WindowState)
    requires
        w.wf(),
        w.current + ONE <= w.max,
        exact((w.current + ONE) as nat),
        w.current / ONE < usize::MAX,
    ensures
        w.increased().limit_of() == w.limit_of() + 1,
{
    lemma_exact_rounds_to_itself((w.current + ONE) as nat);
}

} // verus!
