//! Double-precision arithmetic on numbers that are not negative.
//!
//! A number has 53 significant bits, and each operation gives the number nearest to its exact
//! result, or the one with an even last bit where two are equally near. Exponents are not
//! limited: the numbers that this library computes with are far from the limits of the format.

use vstd::arithmetic::power2::*;
use vstd::prelude::*;

verus! {

/// The smallest mantissa of a number that is not zero.
pub const MANTISSA_LOW: u64 = 0x10000000000000;

/// Mantissas are below this number.
pub const MANTISSA_HIGH: u64 = 0x20000000000000;

/// `mantissa * 2^exponent`.
#[derive(Debug, Clone, Copy, PartialEq, Eq, Structural)]
pub struct Double {
    pub mantissa: u64,
    pub exponent: i64,
}

/// The contents of a [`Double`].
pub struct Number {
    pub mantissa: int,
    pub exponent: int,
}

impl View for Double {
    type V = Number;

    open spec fn view(&self) -> Number {
        Number { mantissa: self.mantissa as int, exponent: self.exponent as int }
    }
}

/// The whole number next to `a / b`; of two that are equally near, the even one.
pub open spec fn nearest_whole(a: int, b: int) -> int {
    let q = a / b;
    let r = a % b;
    if 2 * r > b || (2 * r == b && q % 2 == 1) {
        q + 1
    } else {
        q
    }
}

impl Number {
    pub open spec fn zero() -> Number {
        Number { mantissa: 0, exponent: 0 }
    }

    /// The number has one form: zero without an exponent, or a mantissa of 53 bits.
    pub open spec fn wf(self) -> bool {
        self == Number::zero() || MANTISSA_LOW <= self.mantissa < MANTISSA_HIGH
    }

    pub open spec fn is_zero(self) -> bool {
        self.mantissa == 0
    }

    /// The number times `2^by`.
    pub open spec fn shifted(self, by: int) -> Number {
        if self.is_zero() {
            self
        } else {
            Number { exponent: self.exponent + by, ..self }
        }
    }

    /// The exponent lies between `-limit` and `limit`.
    pub open spec fn within(self, limit: int) -> bool {
        -limit <= self.exponent <= limit
    }
}

/// The number nearest to `num / den`.
pub open spec fn nearest(num: int, den: int) -> Number
    decreases
            (if num < MANTISSA_LOW * den {
                MANTISSA_LOW * den - num
            } else if num >= MANTISSA_HIGH * den {
                num - MANTISSA_HIGH * den + 1
            } else {
                0
            }),
    when num >= 0 && den > 0
{
    if num == 0 {
        Number::zero()
    } else if num < MANTISSA_LOW * den {
        nearest(2 * num, den).shifted(-1)
    } else if num >= MANTISSA_HIGH * den {
        nearest(num, 2 * den).shifted(1)
    } else {
        let q = nearest_whole(num, den);
        if q == MANTISSA_HIGH {
            Number { mantissa: MANTISSA_LOW as int, exponent: 1 }
        } else {
            Number { mantissa: q, exponent: 0 }
        }
    }
}

/// The number nearest to a whole number.
pub open spec fn whole(n: int) -> Number {
    nearest(n, 1)
}

impl Number {
    /// The product.
    pub open spec fn times(self, other: Number) -> Number {
        nearest(self.mantissa * other.mantissa, 1).shifted(self.exponent + other.exponent)
    }

    /// The quotient by a number that is not zero.
    pub open spec fn over(self, other: Number) -> Number {
        nearest(self.mantissa, other.mantissa).shifted(self.exponent - other.exponent)
    }

    /// The sum.
    pub open spec fn plus(self, other: Number) -> Number {
        if self.is_zero() {
            other
        } else if other.is_zero() {
            self
        } else if self.exponent >= other.exponent {
            nearest(
                self.mantissa * pow2((self.exponent - other.exponent) as nat) + other.mantissa,
                1,
            ).shifted(other.exponent)
        } else {
            nearest(
                self.mantissa + other.mantissa * pow2((other.exponent - self.exponent) as nat),
                1,
            ).shifted(self.exponent)
        }
    }

    /// The difference from a number that is not larger.
    pub open spec fn minus(self, other: Number) -> Number {
        if other.is_zero() {
            self
        } else if self.exponent >= other.exponent {
            nearest(
                self.mantissa * pow2((self.exponent - other.exponent) as nat) - other.mantissa,
                1,
            ).shifted(other.exponent)
        } else {
            nearest(
                self.mantissa - other.mantissa * pow2((other.exponent - self.exponent) as nat),
                1,
            ).shifted(self.exponent)
        }
    }

    /// Whether the number is at most `other`.
    pub open spec fn at_most(self, other: Number) -> bool {
        self.is_zero() || (!other.is_zero() && (self.exponent < other.exponent || (self.exponent
            == other.exponent && self.mantissa <= other.mantissa)))
    }

    /// The smaller of two numbers.
    pub open spec fn least(self, other: Number) -> Number {
        if self.at_most(other) {
            self
        } else {
            other
        }
    }
}

/// Unfolds [`nearest`] once.
proof fn lemma_nearest_step(num: int, den: int)
    requires
        num > 0,
        den > 0,
    ensures
        num < MANTISSA_LOW * den ==> nearest(num, den) == nearest(2 * num, den).shifted(-1),
        num >= MANTISSA_HIGH * den ==> nearest(num, den) == nearest(num, 2 * den).shifted(1),
{
}

/// `2^120`.
spec fn wide() -> int {
    0x1000000000000000000000000000000
}

proof fn lemma_wide()
    ensures
        pow2(120) == wide(),
        pow2(52) == MANTISSA_LOW,
        pow2(53) == MANTISSA_HIGH,
        pow2(60) == 0x1000000000000000,
        pow2(64) == 0x10000000000000000,
{
    lemma2_to64();
    lemma2_to64_rest();
    lemma_pow2_adds(60, 60);
}

/// A power of two below another has the smaller exponent.
proof fn lemma_pow2_below(a: nat, b: nat)
    requires
        pow2(a) < pow2(b),
    ensures
        a < b,
{
    if a > b {
        lemma_pow2_strictly_increases(b, a);
    }
}

/// The quotient of `n` by `d` has 53 bits.
proof fn lemma_quotient(n: int, d: int)
    requires
        d > 0,
        MANTISSA_LOW * d <= n < MANTISSA_HIGH * d,
    ensures
        MANTISSA_LOW <= n / d < MANTISSA_HIGH,
{
    assert(MANTISSA_LOW <= n / d < MANTISSA_HIGH) by (nonlinear_arith)
        requires
            d > 0,
            MANTISSA_LOW * d <= n < MANTISSA_HIGH * d,
    ;
}

/// Finds the number nearest to `num / den`.
fn normalise(num: u128, den: u128) -> (r: Double)
    requires
        num < wide(),
        0 < den < 0x1_0000_0000_0000_0000,
    ensures
        r@ == nearest(num as int, den as int),
        r@.wf(),
        r@.within(200),
        num >= MANTISSA_LOW * den ==> r@.exponent >= 0,
        num > 0 ==> !r@.is_zero(),
{
    if num == 0 {
        return Double { mantissa: 0, exponent: 0 };
    }
    let mut n: u128 = num;
    let mut d: u128 = den;
    let mut down: u32 = 0;
    let mut up: u32 = 0;
    proof {
        lemma_wide();
        lemma2_to64();
    }
    while n < MANTISSA_LOW as u128 * d
        invariant
            0 < n < wide(),
            d == den,
            0 < den < 0x1_0000_0000_0000_0000,
            nearest(num as int, den as int) == nearest(n as int, d as int).shifted(-(down as int)),
            pow2(down as nat) <= n,
            down <= 120,
            num >= MANTISSA_LOW * den ==> down == 0 && n == num,
        decreases 120 - down,
    {
        proof {
            lemma_wide();
            lemma_nearest_step(n as int, d as int);
            lemma_pow2_unfold((down + 1) as nat);
            lemma_pow2_below(down as nat, 120);
        }
        n = n * 2;
        down = down + 1;
    }
    while n >= MANTISSA_HIGH as u128 * d
        invariant
            0 < n < wide(),
            0 < d,
            MANTISSA_LOW * d <= n,
            nearest(num as int, den as int) == nearest(n as int, d as int).shifted(up - down),
            pow2(up as nat) <= d,
            up <= 120,
            num >= MANTISSA_LOW * den ==> down == 0,
            down <= 120,
        decreases 120 - up,
    {
        proof {
            lemma_wide();
            lemma_nearest_step(n as int, d as int);
            lemma_pow2_unfold((up + 1) as nat);
            lemma_pow2_below(up as nat, 120);
        }
        assert(MANTISSA_LOW * (2 * d) == MANTISSA_HIGH * d);
        d = d * 2;
        up = up + 1;
    }
    let q: u128 = n / d;
    let rest: u128 = n % d;
    let shift: i64 = up as i64 - down as i64;
    proof {
        lemma_quotient(n as int, d as int);
    }
    if 2 * rest > d || (2 * rest == d && q % 2 == 1) {
        if q + 1 == MANTISSA_HIGH as u128 {
            Double { mantissa: MANTISSA_LOW, exponent: shift + 1 }
        } else {
            Double { mantissa: (q + 1) as u64, exponent: shift }
        }
    } else {
        Double { mantissa: q as u64, exponent: shift }
    }
}

/// The denominator grows until the quotient has 53 bits.
proof fn lemma_nearest_down(n: int, j: nat)
    requires
        n > 0,
        j > 0 ==> n >= MANTISSA_HIGH * pow2((j - 1) as nat),
    ensures
        nearest(n, 1) == nearest(n, pow2(j) as int).shifted(j as int),
    decreases j,
{
    lemma2_to64();
    if j > 0 {
        let i = (j - 1) as nat;
        lemma_pow2_pos(i);
        lemma_pow2_unfold(j);
        if i > 0 {
            lemma_pow2_unfold(i);
        }
        lemma_nearest_down(n, i);
        lemma_nearest_step(n, pow2(i) as int);
    }
}

/// What is far smaller than a number does not change it.
proof fn lemma_absorbed(m: int, d: nat, k: int)
    requires
        MANTISSA_LOW <= m < MANTISSA_HIGH,
        d >= 60,
        -MANTISSA_HIGH < k < MANTISSA_HIGH,
    ensures
        nearest(m * pow2(d) + k, 1) == (Number { mantissa: m, exponent: d as int }),
{
    let n = m * pow2(d) + k;
    let unit = pow2(d) as int;
    let half = pow2((d - 1) as nat) as int;
    lemma_wide();
    lemma_pow2_unfold(d);
    lemma_pow2_unfold((d - 1) as nat);
    if d > 60 {
        lemma_pow2_strictly_increases(60, d);
    }
    assert(m * unit >= MANTISSA_LOW * unit) by (nonlinear_arith)
        requires
            m >= MANTISSA_LOW,
            unit > 0,
    ;
    assert(m * unit == (m - 1) * unit + unit) by (nonlinear_arith);
    assert((m - 1) * unit >= (MANTISSA_LOW - 1) * unit) by (nonlinear_arith)
        requires
            m >= MANTISSA_LOW,
            unit > 0,
    ;
    assert(m * unit <= (MANTISSA_HIGH - 1) * unit) by (nonlinear_arith)
        requires
            m <= MANTISSA_HIGH - 1,
            unit > 0,
    ;
    if k >= 0 {
        lemma_nearest_down(n, d);
        vstd::arithmetic::div_mod::lemma_fundamental_div_mod_converse(n, unit, m, k);
    } else if m > MANTISSA_LOW {
        assert((m - 1) * unit >= MANTISSA_LOW * unit) by (nonlinear_arith)
            requires
                m - 1 >= MANTISSA_LOW,
                unit > 0,
        ;
        lemma_nearest_down(n, d);
        vstd::arithmetic::div_mod::lemma_fundamental_div_mod_converse(n, unit, m - 1, unit + k);
    } else {
        lemma_nearest_down(n, (d - 1) as nat);
        vstd::arithmetic::div_mod::lemma_fundamental_div_mod_converse(
            n,
            half,
            MANTISSA_HIGH - 1,
            half + k,
        );
    }
}

fn power_of_two(n: u32) -> (r: u128)
    requires
        n <= 110,
    ensures
        r == pow2(n as nat),
        r < wide(),
        n <= 60 ==> r <= 0x1000000000000000,
{
    let mut r: u128 = 1;
    let mut i: u32 = 0;
    proof {
        lemma_wide();
        lemma2_to64();
    }
    while i < n
        invariant
            i <= n <= 110,
            r == pow2(i as nat),
            r < wide(),
            i <= 60 ==> r <= 0x1000000000000000,
        decreases n - i,
    {
        proof {
            lemma_wide();
            lemma_pow2_unfold((i + 1) as nat);
            lemma_pow2_strictly_increases((i + 1) as nat, 120);
            if i + 1 < 60 {
                lemma_pow2_strictly_increases((i + 1) as nat, 60);
            }
        }
        r = r * 2;
        i = i + 1;
    }
    r
}

impl Double {
    pub fn zero() -> (r: Double)
        ensures
            r@ == Number::zero(),
    {
        Double { mantissa: 0, exponent: 0 }
    }

    /// The number nearest to a ratio.
    pub fn ratio(num: u64, den: u64) -> (r: Double)
        requires
            den > 0,
        ensures
            r@ == nearest(num as int, den as int),
            r@.wf(),
            r@.within(200),
            num > 0 ==> !r@.is_zero(),
    {
        normalise(num as u128, den as u128)
    }

    /// The number nearest to a whole number.
    pub fn whole(n: u128) -> (r: Double)
        requires
            n < 0x1000000000000000000000000000000,
        ensures
            r@ == whole(n as int),
            r@.wf(),
            r@.within(200),
            n > 0 ==> !r@.is_zero(),
    {
        normalise(n, 1)
    }

    fn shift(self, by: i64) -> (r: Double)
        requires
            -0x1000_0000_0000_0000 <= by <= 0x1000_0000_0000_0000,
            self@.within(0x1000_0000_0000_0000),
        ensures
            r@ == self@.shifted(by as int),
    {
        if self.mantissa == 0 {
            self
        } else {
            Double { mantissa: self.mantissa, exponent: self.exponent + by }
        }
    }

    pub fn times(self, other: Double) -> (r: Double)
        requires
            self@.wf(),
            other@.wf(),
            self@.within(0x100_0000_0000_0000),
            other@.within(0x100_0000_0000_0000),
        ensures
            r@ == self@.times(other@),
            r@.wf(),
            r@.is_zero() || -200 <= r@.exponent - (self@.exponent + other@.exponent) <= 200,
    {
        let a: u128 = self.mantissa as u128;
        let b: u128 = other.mantissa as u128;
        assert(a * b < 0x20000000000000 * 0x20000000000000) by (nonlinear_arith)
            requires
                0 <= a < 0x20000000000000,
                0 <= b < 0x20000000000000,
        ;
        normalise(a * b, 1).shift(self.exponent + other.exponent)
    }

    pub fn over(self, other: Double) -> (r: Double)
        requires
            self@.wf(),
            other@.wf(),
            !other@.is_zero(),
            self@.within(0x100_0000_0000_0000),
            other@.within(0x100_0000_0000_0000),
        ensures
            r@ == self@.over(other@),
            r@.wf(),
            r@.is_zero() || -200 <= r@.exponent - (self@.exponent - other@.exponent) <= 200,
    {
        normalise(self.mantissa as u128, other.mantissa as u128).shift(
            self.exponent - other.exponent,
        )
    }

    pub fn plus(self, other: Double) -> (r: Double)
        requires
            self@.wf(),
            other@.wf(),
            self@.within(0x100_0000_0000_0000),
            other@.within(0x100_0000_0000_0000),
        ensures
            r@ == self@.plus(other@),
            r@.wf(),
            r@.exponent >= self@.exponent || r@.exponent >= other@.exponent,
            r@.exponent <= self@.exponent + 200 || r@.exponent <= other@.exponent + 200,
    {
        if self.mantissa == 0 {
            return other;
        }
        if other.mantissa == 0 {
            return self;
        }
        let (large, small): (Double, Double) = if self.exponent >= other.exponent {
            (self, other)
        } else {
            (other, self)
        };
        let gap: i64 = large.exponent - small.exponent;
        if gap > 60 {
            proof {
                lemma_absorbed(large.mantissa as int, gap as nat, small.mantissa as int);
            }
            return large;
        }
        let unit: u128 = power_of_two(gap as u32);
        let a: u128 = large.mantissa as u128;
        assert(a * unit <= 0x20000000000000 * 0x1000000000000000) by (nonlinear_arith)
            requires
                0 <= a < 0x20000000000000,
                0 <= unit <= 0x1000000000000000,
        ;
        normalise(a * unit + small.mantissa as u128, 1).shift(small.exponent)
    }

    pub fn minus(self, other: Double) -> (r: Double)
        requires
            self@.wf(),
            other@.wf(),
            other@.at_most(self@),
            self@.within(0x100_0000_0000_0000),
            other@.within(0x100_0000_0000_0000),
        ensures
            r@ == self@.minus(other@),
            r@.wf(),
            r@.at_most(self@),
            r@.is_zero() || r@.exponent >= self@.exponent - 300,
    {
        proof {
            lemma_minus_shrinks(self@, other@);
        }
        if other.mantissa == 0 {
            return self;
        }
        let gap: i64 = self.exponent - other.exponent;
        if gap > 60 {
            proof {
                lemma_absorbed(self.mantissa as int, gap as nat, -(other.mantissa as int));
            }
            return self;
        }
        let unit: u128 = power_of_two(gap as u32);
        let a: u128 = self.mantissa as u128;
        let b: u128 = other.mantissa as u128;
        proof {
            assert(a * unit <= 0x20000000000000 * 0x1000000000000000) by (nonlinear_arith)
                requires
                    0 <= a < 0x20000000000000,
                    0 <= unit <= 0x1000000000000000,
            ;
            lemma_scaled_difference(self@, other@);
            assert(a * unit >= b);
        }
        normalise(a * unit - b, 1).shift(other.exponent)
    }

    pub fn at_most(self, other: Double) -> (r: bool)
        ensures
            r == self@.at_most(other@),
    {
        self.mantissa == 0 || (other.mantissa != 0 && (self.exponent < other.exponent || (
        self.exponent == other.exponent && self.mantissa <= other.mantissa)))
    }

    pub fn least(self, other: Double) -> (r: Double)
        ensures
            r@ == self@.least(other@),
    {
        if self.at_most(other) {
            self
        } else {
            other
        }
    }
}

/// Two to the power of `e`.
pub open spec fn two_to(e: int) -> real
    decreases
            (if e < 0 {
                -e
            } else {
                e
            }),
{
    if e == 0 {
        1 as real
    } else if e > 0 {
        (2 as real) * two_to(e - 1)
    } else {
        two_to(e + 1) / (2 as real)
    }
}

impl Number {
    /// What the number stands for.
    pub open spec fn value(self) -> real {
        self.mantissa as real * two_to(self.exponent)
    }
}

/// How far a number may be from what it stands for, in relation to it.
pub open spec fn precision() -> real {
    (1 as real) / (9007199254740992 as real)
}

pub proof fn lemma_two_to(e: int)
    ensures
        two_to(e) > 0 as real,
        two_to(e + 1) == (2 as real) * two_to(e),
        two_to(e - 1) == two_to(e) / (2 as real),
    decreases
            (if e < 0 {
                -e
            } else {
                e
            }),
{
    if e > 0 {
        lemma_two_to(e - 1);
    } else if e < 0 {
        lemma_two_to(e + 1);
    } else {
        assert(two_to(1) == (2 as real) * two_to(0));
        assert(two_to(-1) == two_to(0) / (2 as real));
    }
}

pub proof fn lemma_two_to_adds(a: int, b: int)
    ensures
        two_to(a + b) == two_to(a) * two_to(b),
    decreases
            (if b < 0 {
                -b
            } else {
                b
            }),
{
    let x = two_to(a);
    if b > 0 {
        lemma_two_to_adds(a, b - 1);
        lemma_two_to(a + b - 1);
        lemma_two_to(b - 1);
        let y = two_to(b - 1);
        assert((2 as real) * (x * y) == x * ((2 as real) * y)) by (nonlinear_arith);
    } else if b < 0 {
        lemma_two_to_adds(a, b + 1);
        lemma_two_to(a + b + 1);
        lemma_two_to(b + 1);
        let y = two_to(b + 1);
        assert((x * y) / (2 as real) == x * (y / (2 as real))) by (nonlinear_arith);
    } else {
        assert(x * (1 as real) == x) by (nonlinear_arith);
    }
}

pub proof fn lemma_two_to_increases(a: int, b: int)
    requires
        a <= b,
    ensures
        two_to(a) <= two_to(b),
    decreases b - a,
{
    if a < b {
        lemma_two_to_increases(a, b - 1);
        lemma_two_to(b - 1);
    }
}

pub proof fn lemma_two_to_whole(n: nat)
    ensures
        two_to(n as int) == pow2(n) as real,
    decreases n,
{
    lemma2_to64();
    if n > 0 {
        lemma_two_to_whole((n - 1) as nat);
        lemma_pow2_unfold(n);
        lemma_two_to(n - 1);
    }
}

pub proof fn lemma_swap(a: real, b: real, c: real, d: real)
    by (nonlinear_arith)
    ensures
        (a * b) * (c * d) == (a * c) * (b * d),
{
}

pub proof fn lemma_regroup(a: real, b: real, c: real)
    by (nonlinear_arith)
    ensures
        (a * b) * c == a * (b * c),
{
}

pub proof fn lemma_spread(a: real, b: real, c: real)
    by (nonlinear_arith)
    ensures
        (a + b) * c == a * c + b * c,
{
}

pub proof fn lemma_times_one(a: real)
    by (nonlinear_arith)
    ensures
        a * (1 as real) == a,
{
}

pub proof fn lemma_real_product(a: int, b: int)
    ensures
        (a * b) as real == (a as real) * (b as real),
{
    assert((a * b) as real == (a as real) * (b as real)) by (nonlinear_arith);
}

pub proof fn lemma_shifted_value(x: Number, by: int)
    ensures
        x.shifted(by).value() == x.value() * two_to(by),
        x.wf() ==> x.shifted(by).wf(),
{
    let m = x.mantissa as real;
    let a = two_to(x.exponent);
    let b = two_to(by);
    if x.is_zero() {
        assert((0 as real) * a == 0 as real) by (nonlinear_arith);
        assert((0 as real) * b == 0 as real) by (nonlinear_arith);
    } else {
        lemma_two_to_adds(x.exponent, by);
        assert(m * (a * b) == (m * a) * b) by (nonlinear_arith);
    }
}

/// The whole number next to a ratio is at most one half away.
proof fn lemma_nearest_whole(a: int, b: int)
    requires
        a >= 0,
        b > 0,
    ensures
        2 * a - b <= 2 * (nearest_whole(a, b) * b) <= 2 * a + b,
        2 * (nearest_whole(a, b) * b) == 2 * a + b || 2 * (nearest_whole(a, b) * b) == 2 * a - b
            ==> nearest_whole(a, b) % 2 == 0,
        nearest_whole(a, b) >= a / b,
        nearest_whole(a, b) <= a / b + 1,
{
    let q = a / b;
    let r = a % b;
    vstd::arithmetic::div_mod::lemma_fundamental_div_mod(a, b);
    vstd::arithmetic::div_mod::lemma_mod_bound(a, b);
    assert(b * q == q * b) by (nonlinear_arith);
    assert((q + 1) * b == q * b + b) by (nonlinear_arith);
}

/// What is nearest to a ratio is close to it, and has one form.
pub proof fn lemma_nearest_close(num: int, den: int)
    requires
        num >= 0,
        den > 0,
    ensures
        nearest(num, den).wf(),
        nearest(num, den).is_zero() <==> num == 0,
        ({
            let v = nearest(num, den).value() * (den as real);
            let n = num as real;
            &&& n - n * precision() <= v <= n + n * precision()
        }),
    decreases
            (if num < MANTISSA_LOW * den {
                MANTISSA_LOW * den - num
            } else if num >= MANTISSA_HIGH * den {
                num - MANTISSA_HIGH * den + 1
            } else {
                0
            }),
{
    let x = nearest(num, den);
    let d = den as real;
    let n = num as real;
    if num == 0 {
        assert((0 as real) * two_to(0) == 0 as real) by (nonlinear_arith);
        assert((0 as real) * d == 0 as real) by (nonlinear_arith);
        assert((0 as real) * precision() == 0 as real) by (nonlinear_arith);
    } else if num < MANTISSA_LOW * den {
        let y = nearest(2 * num, den);
        let p = precision();
        assert(((2 as real) * n) * p == (2 as real) * (n * p)) by (nonlinear_arith);
        assert((2 * num) as real == (2 as real) * n);
        lemma_nearest_close(2 * num, den);
        lemma_shifted_value(y, -1);
        lemma_two_to(0);
        let v = y.value();
        assert((v * ((1 as real) / (2 as real))) * d == (v * d) / (2 as real)) by (nonlinear_arith);
        assert(two_to(-1) == (1 as real) / (2 as real));
    } else if num >= MANTISSA_HIGH * den {
        let y = nearest(num, 2 * den);
        lemma_nearest_close(num, 2 * den);
        lemma_shifted_value(y, 1);
        lemma_two_to(0);
        let v = y.value();
        assert((v * (2 as real)) * d == v * ((2 as real) * d)) by (nonlinear_arith);
        assert((2 * den) as real == (2 as real) * d);
    } else {
        let q = nearest_whole(num, den);
        lemma_quotient(num, den);
        lemma_nearest_whole(num, den);
        lemma_two_to(0);
        lemma_real_product(q, den);
        assert((q as real) * (1 as real) == q as real) by (nonlinear_arith);
        if q == MANTISSA_HIGH {
            assert(x.mantissa as real == 4503599627370496 as real);
            assert(two_to(x.exponent) == (2 as real) * two_to(0));
            assert((4503599627370496 as real) * (2 as real) == 9007199254740992 as real);
        } else {
            assert(x.mantissa == q);
        }
        assert(x.value() == q as real);
        let e = n * precision();
        assert(e * (9007199254740992 as real) == n) by (nonlinear_arith)
            requires
                e == n * ((1 as real) / (9007199254740992 as real)),
        ;
        assert(n >= (4503599627370496 as real) * d);
    }
}

/// `v` is what `t` may be rounded to.
#[verifier::opaque]
pub open spec fn close(v: real, t: real) -> bool {
    t - t * precision() <= v <= t + t * precision()
}

/// What is nearest to a ratio is close to it.
pub proof fn lemma_nearest_near(num: int, den: int)
    requires
        num >= 0,
        den > 0,
    ensures
        nearest(num, den).wf(),
        nearest(num, den).is_zero() <==> num == 0,
        close(nearest(num, den).value() * (den as real), num as real),
{
    reveal(close);
    lemma_nearest_close(num, den);
}

/// A number is close to itself.
pub proof fn lemma_close_same(t: real)
    requires
        t >= 0 as real,
    ensures
        close(t, t),
{
    reveal(close);
    let p = precision();
    assert(t * p >= 0 as real) by (nonlinear_arith)
        requires
            t >= 0 as real,
            p >= 0 as real,
    ;
}

/// Scaling keeps numbers close.
proof fn lemma_close_scaled(v: real, t: real, k: real)
    requires
        close(v, t),
        k >= 0 as real,
    ensures
        close(v * k, t * k),
{
    reveal(close);
    let p = precision();
    let e = t * p;
    assert((t * k) * p == e * k) by (nonlinear_arith)
        requires
            e == t * p,
    ;
    assert((t - e) * k <= v * k <= (t + e) * k) by (nonlinear_arith)
        requires
            t - e <= v <= t + e,
            k >= 0 as real,
    ;
    assert((t - e) * k == t * k - e * k) by (nonlinear_arith);
    assert((t + e) * k == t * k + e * k) by (nonlinear_arith);
}

pub proof fn lemma_value_positive(x: Number)
    requires
        x.wf(),
    ensures
        x.value() >= 0 as real,
        x.is_zero() <==> x.value() == 0 as real,
        !x.is_zero() ==> x.value() >= (4503599627370496 as real) * two_to(x.exponent),
        !x.is_zero() ==> x.value() < (9007199254740992 as real) * two_to(x.exponent),
{
    let m = x.mantissa as real;
    let t = two_to(x.exponent);
    lemma_two_to(x.exponent);
    if x.is_zero() {
        assert((0 as real) * t == 0 as real) by (nonlinear_arith);
    } else {
        assert(m * t >= (4503599627370496 as real) * t) by (nonlinear_arith)
            requires
                m >= 4503599627370496 as real,
                t > 0 as real,
        ;
        assert(m * t < (9007199254740992 as real) * t) by (nonlinear_arith)
            requires
                m < 9007199254740992 as real,
                t > 0 as real,
        ;
    }
}

/// Numbers are ordered as what they stand for.
pub proof fn lemma_order(x: Number, y: Number)
    requires
        x.wf(),
        y.wf(),
    ensures
        x.at_most(y) <==> x.value() <= y.value(),
{
    lemma_value_positive(x);
    lemma_value_positive(y);
    lemma_two_to(x.exponent);
    lemma_two_to(y.exponent);
    if !x.is_zero() && !y.is_zero() {
        if x.exponent < y.exponent {
            lemma_two_to_increases(x.exponent + 1, y.exponent);
        } else if x.exponent > y.exponent {
            lemma_two_to_increases(y.exponent + 1, x.exponent);
        } else {
            let a = x.mantissa as real;
            let b = y.mantissa as real;
            let t = two_to(x.exponent);
            if x.mantissa <= y.mantissa {
                assert(a * t <= b * t) by (nonlinear_arith)
                    requires
                        a <= b,
                        t > 0 as real,
                ;
            } else {
                assert(a * t > b * t) by (nonlinear_arith)
                    requires
                        a > b,
                        t > 0 as real,
                ;
            }
        }
    }
}

pub proof fn lemma_times(x: Number, y: Number)
    requires
        x.wf(),
        y.wf(),
    ensures
        x.times(y).wf(),
        close(x.times(y).value(), x.value() * y.value()),
{
    let n = x.mantissa * y.mantissa;
    let k = x.exponent + y.exponent;
    assert(n >= 0) by (nonlinear_arith)
        requires
            n == x.mantissa * y.mantissa,
            x.mantissa >= 0,
            y.mantissa >= 0,
    ;
    lemma_nearest_near(n, 1);
    let v = nearest(n, 1).value();
    lemma_times_one(v);
    lemma_shifted_value(nearest(n, 1), k);
    lemma_two_to(k);
    lemma_close_scaled(v, n as real, two_to(k));
    lemma_real_product(x.mantissa, y.mantissa);
    lemma_two_to_adds(x.exponent, y.exponent);
    let a = x.mantissa as real;
    let b = y.mantissa as real;
    let s = two_to(x.exponent);
    let t = two_to(y.exponent);
    lemma_swap(a, b, s, t);
}

pub proof fn lemma_over(x: Number, y: Number)
    requires
        x.wf(),
        y.wf(),
        !y.is_zero(),
    ensures
        x.over(y).wf(),
        close(x.over(y).value() * y.value(), x.value()),
        x.over(y).is_zero() <==> x.is_zero(),
{
    let k = x.exponent - y.exponent;
    lemma_nearest_near(x.mantissa, y.mantissa);
    let q = nearest(x.mantissa, y.mantissa);
    let v = q.value();
    lemma_shifted_value(q, k);
    lemma_two_to(x.exponent);
    let b = y.mantissa as real;
    lemma_close_scaled(v * b, x.mantissa as real, two_to(x.exponent));
    lemma_two_to_adds(k, y.exponent);
    let s = two_to(k);
    let t = two_to(y.exponent);
    assert(k + y.exponent == x.exponent);
    lemma_swap(v, b, s, t);
    assert(x.over(y).value() == v * s);
}

/// A mantissa that is moved up to a larger one's exponent stands for the same.
proof fn lemma_aligned(m: int, e: int, base: int)
    requires
        e >= base,
    ensures
        (m * pow2((e - base) as nat)) as real * two_to(base) == m as real * two_to(e),
{
    let gap = (e - base) as nat;
    lemma_two_to_whole(gap);
    lemma_two_to_adds(gap as int, base);
    lemma_real_product(m, pow2(gap) as int);
    let a = m as real;
    let g = two_to(gap as int);
    let b = two_to(base);
    lemma_regroup(a, g, b);
}

proof fn lemma_scaled_sum(n: int, base: int, t: real)
    requires
        n >= 0,
        n as real * two_to(base) == t,
    ensures
        nearest(n, 1).shifted(base).wf(),
        close(nearest(n, 1).shifted(base).value(), t),
{
    lemma_nearest_near(n, 1);
    let v = nearest(n, 1).value();
    lemma_times_one(v);
    lemma_shifted_value(nearest(n, 1), base);
    lemma_two_to(base);
    lemma_close_scaled(v, n as real, two_to(base));
}

pub proof fn lemma_plus(x: Number, y: Number)
    requires
        x.wf(),
        y.wf(),
    ensures
        x.plus(y).wf(),
        close(x.plus(y).value(), x.value() + y.value()),
{
    lemma_value_positive(x);
    lemma_value_positive(y);
    let t = x.value() + y.value();
    lemma_close_same(t);
    if !x.is_zero() && !y.is_zero() {
        let (large, small) = if x.exponent >= y.exponent {
            (x, y)
        } else {
            (y, x)
        };
        let gap = (large.exponent - small.exponent) as nat;
        let moved = large.mantissa * pow2(gap);
        lemma_aligned(large.mantissa, large.exponent, small.exponent);
        let b = two_to(small.exponent);
        let c = moved as real;
        let d = small.mantissa as real;
        lemma_spread(c, d, b);
        lemma_pow2_pos(gap);
        assert(moved >= 0) by (nonlinear_arith)
            requires
                moved == large.mantissa * pow2(gap),
                large.mantissa >= 0,
        ;
        lemma_scaled_sum(moved + small.mantissa, small.exponent, t);
    }
}

pub proof fn lemma_minus(x: Number, y: Number)
    requires
        x.wf(),
        y.wf(),
        y.at_most(x),
    ensures
        x.minus(y).wf(),
        close(x.minus(y).value(), x.value() - y.value()),
{
    lemma_value_positive(x);
    lemma_value_positive(y);
    lemma_order(y, x);
    let t = x.value() - y.value();
    lemma_close_same(t);
    if !y.is_zero() {
        let gap = (x.exponent - y.exponent) as nat;
        let moved = x.mantissa * pow2(gap);
        lemma_aligned(x.mantissa, x.exponent, y.exponent);
        let b = two_to(y.exponent);
        let c = moved as real;
        let d = y.mantissa as real;
        lemma_spread(c, -d, b);
        lemma_spread(d, -d, b);
        assert((0 as real) * b == 0 as real) by (nonlinear_arith);
        lemma_two_to(y.exponent);
        assert(c - d >= 0 as real) by (nonlinear_arith)
            requires
                (c - d) * b >= 0 as real,
                b > 0 as real,
        ;
        lemma_scaled_sum(moved - y.mantissa, y.exponent, t);
    }
}

proof fn lemma_halves(v: real, d: real)
    by (nonlinear_arith)
    ensures
        (v * ((1 as real) / (2 as real))) == v / (2 as real),
        (v / (2 as real)) * ((2 as real) * d) == v * d,
        ((2 as real) * v) * d == (2 as real) * (v * d),
{
}

pub proof fn lemma_product_order(a: real, b: real, k: real)
    by (nonlinear_arith)
    requires
        k > 0 as real,
    ensures
        a <= b <==> a * k <= b * k,
{
}

/// Rounding does not pass over a number.
pub proof fn lemma_nearest_stays(num: int, den: int, y: Number)
    requires
        num >= 0,
        den > 0,
        y.wf(),
    ensures
        y.value() * (den as real) <= num as real ==> y.value() <= nearest(num, den).value(),
        num as real <= y.value() * (den as real) ==> nearest(num, den).value() <= y.value(),
    decreases
            (if num < MANTISSA_LOW * den {
                MANTISSA_LOW * den - num
            } else if num >= MANTISSA_HIGH * den {
                num - MANTISSA_HIGH * den + 1
            } else {
                0
            }),
{
    let d = den as real;
    let v = y.value();
    lemma_two_to(0);
    lemma_value_positive(y);
    lemma_nearest_near(num, den);
    lemma_value_positive(nearest(num, den));
    lemma_halves(v, d);
    if num == 0 {
        lemma_product_order(v, 0 as real, d);
        assert((0 as real) * d == 0 as real) by (nonlinear_arith);
    } else if num < MANTISSA_LOW * den {
        let x = nearest(2 * num, den);
        lemma_nearest_stays(2 * num, den, y.shifted(1));
        lemma_shifted_value(y, 1);
        lemma_shifted_value(x, -1);
        lemma_halves(x.value(), d);
        assert(y.shifted(1).value() == (2 as real) * v) by {
            assert(v * (2 as real) == (2 as real) * v) by (nonlinear_arith);
        }
    } else if num >= MANTISSA_HIGH * den {
        let x = nearest(num, 2 * den);
        lemma_nearest_stays(num, 2 * den, y.shifted(-1));
        lemma_shifted_value(y, -1);
        lemma_shifted_value(x, 1);
        assert((2 * den) as real == (2 as real) * d);
        assert(y.shifted(-1).value() == v / (2 as real));
    } else {
        let q = nearest_whole(num, den);
        lemma_quotient(num, den);
        lemma_nearest_whole(num, den);
        lemma_base_value(num, den);
        lemma_two_to(y.exponent);
        if !y.is_zero() {
            if y.exponent == 0 {
                let m = y.mantissa;
                lemma_times_one(m as real);
                lemma_real_product(m, den);
                vstd::arithmetic::div_mod::lemma_fundamental_div_mod(num, den);
                vstd::arithmetic::div_mod::lemma_mod_bound(num, den);
                let f = num / den;
                assert(den * f == f * den) by (nonlinear_arith);
                if m * den <= num {
                    assert(m <= f) by (nonlinear_arith)
                        requires
                            m * den <= num,
                            num < f * den + den,
                            den > 0,
                    ;
                }
                if num <= m * den {
                    assert(f <= m) by (nonlinear_arith)
                        requires
                            f * den <= num,
                            num <= m * den,
                            den > 0,
                    ;
                    if f == m {
                        assert(num % den == 0);
                    }
                }
            } else if y.exponent > 0 {
                lemma_two_to_increases(1, y.exponent);
                lemma_product_order(9007199254740992 as real, v, d);
            } else {
                lemma_two_to_increases(y.exponent, -1);
                lemma_product_order(4503599627370496 as real, v, d);
            }
        }
    }
}

/// A ratio with a quotient of 53 bits is rounded to a whole number.
proof fn lemma_base_value(num: int, den: int)
    requires
        den > 0,
        MANTISSA_LOW * den <= num < MANTISSA_HIGH * den,
    ensures
        nearest(num, den).value() == nearest_whole(num, den) as real,
        MANTISSA_LOW <= nearest_whole(num, den) <= MANTISSA_HIGH,
{
    let q = nearest_whole(num, den);
    let x = nearest(num, den);
    lemma_quotient(num, den);
    lemma_nearest_whole(num, den);
    lemma_two_to(0);
    lemma_times_one(q as real);
    if q == MANTISSA_HIGH {
        assert(x.mantissa as real == 4503599627370496 as real);
        assert(two_to(x.exponent) == (2 as real) * two_to(0));
        assert((4503599627370496 as real) * (2 as real) == 9007199254740992 as real);
    } else {
        assert(x.mantissa == q);
    }
}

proof fn lemma_nearest_whole_monotone(a: int, b: int, c: int, d: int)
    requires
        a >= 0,
        b > 0,
        c >= 0,
        d > 0,
        a * d <= c * b,
    ensures
        nearest_whole(a, b) <= nearest_whole(c, d),
{
    let p = nearest_whole(a, b);
    let q = nearest_whole(c, d);
    lemma_nearest_whole(a, b);
    lemma_nearest_whole(c, d);
    if p > q {
        let bd = b * d;
        let pb = p * b;
        let qd = q * d;
        assert(bd > 0) by (nonlinear_arith)
            requires
                bd == b * d,
                b > 0,
                d > 0,
        ;
        assert((2 * pb) * d <= (2 * a + b) * d) by (nonlinear_arith)
            requires
                2 * pb <= 2 * a + b,
                d > 0,
        ;
        assert((2 * qd) * b >= (2 * c - d) * b) by (nonlinear_arith)
            requires
                2 * qd >= 2 * c - d,
                b > 0,
        ;
        assert((2 * pb) * d == 2 * (p * bd)) by (nonlinear_arith)
            requires
                pb == p * b,
                bd == b * d,
        ;
        assert((2 * qd) * b == 2 * (q * bd)) by (nonlinear_arith)
            requires
                qd == q * d,
                bd == b * d,
        ;
        assert((2 * a + b) * d == 2 * (a * d) + bd) by (nonlinear_arith)
            requires
                bd == b * d,
        ;
        assert((2 * c - d) * b == 2 * (c * b) - bd) by (nonlinear_arith)
            requires
                bd == b * d,
        ;
        assert(p * bd <= q * bd + bd);
        assert(p <= q + 1) by (nonlinear_arith)
            requires
                p * bd <= q * bd + bd,
                bd > 0,
        ;
        assert(p == q + 1);
        assert(p * bd == q * bd + bd) by (nonlinear_arith)
            requires
                p == q + 1,
        ;
        assert((2 * pb) * d == (2 * a + b) * d);
        assert(2 * pb == 2 * a + b) by (nonlinear_arith)
            requires
                (2 * pb) * d == (2 * a + b) * d,
                d > 0,
        ;
        assert((2 * qd) * b == (2 * c - d) * b);
        assert(2 * qd == 2 * c - d) by (nonlinear_arith)
            requires
                (2 * qd) * b == (2 * c - d) * b,
                b > 0,
        ;
    }
}

/// Rounding keeps the order of ratios.
pub proof fn lemma_nearest_monotone(a: int, b: int, c: int, d: int)
    requires
        a >= 0,
        b > 0,
        c >= 0,
        d > 0,
        a * d <= c * b,
    ensures
        nearest(a, b).value() <= nearest(c, d).value(),
    decreases
            (if a < MANTISSA_LOW * b {
                MANTISSA_LOW * b - a
            } else if a >= MANTISSA_HIGH * b {
                a - MANTISSA_HIGH * b + 1
            } else {
                0
            }),
{
    lemma_two_to(0);
    lemma_nearest_near(a, b);
    lemma_nearest_near(c, d);
    lemma_value_positive(nearest(a, b));
    lemma_value_positive(nearest(c, d));
    if a == 0 {
    } else {
        assert(c > 0) by (nonlinear_arith)
            requires
                a * d <= c * b,
                a > 0,
                d > 0,
                b > 0,
        ;
        let low = Number { mantissa: MANTISSA_LOW as int, exponent: 0 };
        let high = Number { mantissa: MANTISSA_LOW as int, exponent: 1 };
        lemma_times_one(4503599627370496 as real);
        assert(low.value() == 4503599627370496 as real);
        assert(two_to(1) == (2 as real) * two_to(0));
        assert(two_to(1) == 2 as real);
        assert((4503599627370496 as real) * (2 as real) == 9007199254740992 as real);
        assert(high.value() == 9007199254740992 as real);
        if a < MANTISSA_LOW * b {
            if c < MANTISSA_LOW * d {
                assert((2 * a) * d <= (2 * c) * b) by (nonlinear_arith)
                    requires
                        a * d <= c * b,
                ;
                lemma_nearest_monotone(2 * a, b, 2 * c, d);
                lemma_shifted_value(nearest(2 * a, b), -1);
                lemma_shifted_value(nearest(2 * c, d), -1);
                lemma_product_order(
                    nearest(2 * a, b).value(),
                    nearest(2 * c, d).value(),
                    two_to(-1),
                );
            } else {
                lemma_nearest_stays(a, b, low);
                lemma_nearest_stays(c, d, low);
            }
        } else if a >= MANTISSA_HIGH * b {
            assert(c >= MANTISSA_HIGH * d) by (nonlinear_arith)
                requires
                    a * d <= c * b,
                    a >= MANTISSA_HIGH * b,
                    b > 0,
                    d > 0,
            ;
            assert(a * (2 * d) <= c * (2 * b)) by (nonlinear_arith)
                requires
                    a * d <= c * b,
            ;
            lemma_nearest_monotone(a, 2 * b, c, 2 * d);
            lemma_shifted_value(nearest(a, 2 * b), 1);
            lemma_shifted_value(nearest(c, 2 * d), 1);
            lemma_product_order(nearest(a, 2 * b).value(), nearest(c, 2 * d).value(), two_to(1));
        } else {
            assert(c >= MANTISSA_LOW * d) by (nonlinear_arith)
                requires
                    a * d <= c * b,
                    a >= MANTISSA_LOW * b,
                    b > 0,
                    d > 0,
            ;
            lemma_base_value(a, b);
            if c >= MANTISSA_HIGH * d {
                lemma_nearest_stays(c, d, high);
            } else {
                lemma_base_value(c, d);
                lemma_nearest_whole_monotone(a, b, c, d);
            }
        }
    }
}

/// A difference is not larger than what it was taken from.
pub proof fn lemma_minus_shrinks(x: Number, y: Number)
    requires
        x.wf(),
        y.wf(),
        y.at_most(x),
    ensures
        x.minus(y).at_most(x),
{
    if y.is_zero() {
    } else {
        let base = y.exponent;
        let gap = (x.exponent - base) as nat;
        let moved = x.mantissa * pow2(gap);
        let n = moved - y.mantissa;
        let top = x.shifted(-base);
        lemma_minus(x, y);
        lemma_aligned(x.mantissa, x.exponent, base);
        lemma_two_to_whole(gap);
        lemma_real_product(x.mantissa, pow2(gap) as int);
        assert(top.value() == moved as real);
        lemma_times_one(top.value());
        lemma_scaled_difference(x, y);
        lemma_shifted_value(x, -base);
        lemma_nearest_stays(n, 1, top);
        lemma_nearest_near(n, 1);
        lemma_shifted_value(nearest(n, 1), base);
        lemma_two_to(base);
        lemma_product_order(nearest(n, 1).value(), top.value(), two_to(base));
        lemma_order(x.minus(y), x);
    }
}

/// The difference of aligned mantissas is not negative.
proof fn lemma_scaled_difference(x: Number, y: Number)
    requires
        x.wf(),
        y.wf(),
        y.at_most(x),
        !y.is_zero(),
    ensures
        x.mantissa * pow2((x.exponent - y.exponent) as nat) - y.mantissa >= 0,
{
    let gap = (x.exponent - y.exponent) as nat;
    let a = x.mantissa;
    let unit = pow2(gap) as int;
    lemma2_to64();
    if gap > 0 {
        lemma_pow2_strictly_increases(0, gap);
        assert(a * unit >= 2 * a) by (nonlinear_arith)
            requires
                unit >= 2,
                a >= 0,
        ;
    } else {
        assert(a * unit == a) by (nonlinear_arith)
            requires
                unit == 1,
        ;
    }
}

/// The number times 10^9, as a ratio.
pub open spec fn billionfold(x: Number) -> (int, int) {
    if x.exponent >= 0 {
        (x.mantissa * 1_000_000_000 * pow2(x.exponent as nat), 1)
    } else {
        (x.mantissa * 1_000_000_000, pow2((-x.exponent) as nat) as int)
    }
}

/// A number of seconds in whole nanoseconds.
pub open spec fn nanos_of(x: Number) -> int {
    let (num, den) = billionfold(x);
    nearest_whole(num, den)
}

proof fn lemma_billionfold(x: Number)
    requires
        x.wf(),
    ensures
        billionfold(x).0 >= 0,
        billionfold(x).1 > 0,
        billionfold(x).0 as real == (x.value() * (1_000_000_000 as real)) * (billionfold(x).1 as real),
{
    let m = x.mantissa as real;
    let g = 1_000_000_000 as real;
    let t = two_to(x.exponent);
    lemma_real_product(x.mantissa, 1_000_000_000);
    if x.exponent >= 0 {
        let n = x.exponent as nat;
        lemma_pow2_pos(n);
        lemma_two_to_whole(n);
        lemma_real_product(x.mantissa * 1_000_000_000, pow2(n) as int);
        lemma_regroup(m, g, t);
        lemma_regroup(m, t, g);
        assert(g * t == t * g) by (nonlinear_arith);
        lemma_times_one(x.value() * g);
        let a = x.mantissa * 1_000_000_000;
        assert(a * pow2(n) >= 0) by (nonlinear_arith)
            requires
                a >= 0,
        ;
    } else {
        let n = (-x.exponent) as nat;
        lemma_pow2_pos(n);
        lemma_two_to_whole(n);
        lemma_two_to_adds(x.exponent, n as int);
        let r = two_to(n as int);
        lemma_swap(m, t, g, r);
        lemma_regroup(m * t, g, r);
        lemma_times_one(m * g);
    }
}

/// Larger numbers of seconds have no fewer nanoseconds.
pub proof fn lemma_nanos_monotone(x: Number, y: Number)
    requires
        x.wf(),
        y.wf(),
        x.value() <= y.value(),
    ensures
        nanos_of(x) <= nanos_of(y),
{
    let (a, b) = billionfold(x);
    let (c, d) = billionfold(y);
    let g = 1_000_000_000 as real;
    lemma_billionfold(x);
    lemma_billionfold(y);
    let v = x.value() * g;
    let w = y.value() * g;
    lemma_product_order(x.value(), y.value(), g);
    let bd = (b as real) * (d as real);
    lemma_regroup(v, b as real, d as real);
    lemma_regroup(w, d as real, b as real);
    assert((d as real) * (b as real) == bd) by (nonlinear_arith)
        requires
            bd == (b as real) * (d as real),
    ;
    assert(bd > 0 as real) by (nonlinear_arith)
        requires
            bd == (b as real) * (d as real),
            b as real > 0 as real,
            d as real > 0 as real,
    ;
    lemma_product_order(v, w, bd);
    lemma_real_product(a, d);
    lemma_real_product(c, b);
    lemma_nearest_whole_monotone(a, b, c, d);
}

/// A number of nanoseconds in seconds: the whole seconds and the rest of them, added up.
pub open spec fn seconds_of(nanos: int) -> Number {
    whole(nanos / 1_000_000_000).plus(whole(nanos % 1_000_000_000).over(whole(1_000_000_000)))
}

/// The number without its fraction, or one more if it has one.
pub open spec fn ceiling(x: Number) -> int {
    if x.exponent >= 0 {
        x.mantissa * pow2(x.exponent as nat)
    } else {
        let unit = pow2((-x.exponent) as nat) as int;
        (x.mantissa + unit - 1) / unit
    }
}

/// A number of nanoseconds in seconds.
pub fn seconds(nanos: u128) -> (r: Double)
    ensures
        r@ == seconds_of(nanos as int),
        r@.wf(),
        r@.within(1000),
{
    let billion: Double = Double::whole(1_000_000_000);
    let rest: Double = Double::whole(nanos % 1_000_000_000).over(billion);
    Double::whole(nanos / 1_000_000_000).plus(rest)
}

/// The nanoseconds of a number of seconds, but at most `max`.
pub fn capped_nanos(x: Double, max: u128) -> (r: u128)
    requires
        x@.wf(),
    ensures
        r == (if nanos_of(x@) <= max {
            nanos_of(x@)
        } else {
            max as int
        }),
{
    let n: u128 = x.mantissa as u128 * 1_000_000_000;
    if x.exponent >= 0 {
        let ghost e = x.exponent as nat;
        let ghost all = n * pow2(e);
        proof {
            lemma_nearest_whole_of_whole(all);
            lemma_wide();
        }
        if x.mantissa == 0 {
            assert(0 * pow2(e) == 0) by (nonlinear_arith);
            return 0;
        }
        if x.exponent > 60 {
            proof {
                lemma_pow2_strictly_increases(60, e);
                let unit = pow2(e) as int;
                assert(all > 0xffff_ffff_ffff_ffff_ffff_ffff_ffff_ffff) by (nonlinear_arith)
                    requires
                        all == n * unit,
                        n >= 0x10000000000000 * 1_000_000_000,
                        unit > 0x1000000000000000,
                ;
            }
            return max;
        }
        let unit: u128 = power_of_two(x.exponent as u32);
        match n.checked_mul(unit) {
            Some(nanos) => if nanos <= max {
                nanos
            } else {
                max
            },
            None => max,
        }
    } else {
        let down: i64 = if x.exponent < -200 {
            200
        } else {
            -x.exponent
        };
        let ghost k = (-x.exponent) as nat;
        proof {
            lemma_wide();
        }
        if down > 100 {
            proof {
                lemma_pow2_adds(50, 50);
                lemma2_to64();
                lemma2_to64_rest();
                lemma_pow2_strictly_increases(100, k);
                let unit = pow2(k) as int;
                vstd::arithmetic::div_mod::lemma_basic_div(n as int, unit);
                vstd::arithmetic::div_mod::lemma_small_mod(n as nat, unit as nat);
            }
            return 0;
        }
        let unit: u128 = power_of_two(down as u32);
        proof {
            lemma_pow2_pos(k);
        }
        let q: u128 = n / unit;
        let rest: u128 = n % unit;
        let nanos: u128 = if 2 * rest > unit || (2 * rest == unit && q % 2 == 1) {
            q + 1
        } else {
            q
        };
        if nanos <= max {
            nanos
        } else {
            max
        }
    }
}

/// A whole number is next to itself.
proof fn lemma_nearest_whole_of_whole(n: int)
    ensures
        nearest_whole(n, 1) == n,
{
}

/// The number without its fraction, or one more if it has one, but at most the largest `u64`.
pub fn capped_ceiling(x: Double) -> (r: u64)
    requires
        x@.wf(),
    ensures
        r == (if ceiling(x@) <= u64::MAX {
            ceiling(x@)
        } else {
            u64::MAX as int
        }),
{
    let m: u128 = x.mantissa as u128;
    if x.exponent >= 0 {
        let ghost e = x.exponent as nat;
        let ghost all = m * pow2(e);
        proof {
            lemma_wide();
        }
        if x.mantissa == 0 {
            assert(0 * pow2(e) == 0) by (nonlinear_arith);
            return 0;
        }
        if x.exponent > 60 {
            proof {
                lemma_pow2_strictly_increases(60, e);
                let unit = pow2(e) as int;
                assert(all > 0xffff_ffff_ffff_ffff) by (nonlinear_arith)
                    requires
                        all == m * unit,
                        m >= 0x10000000000000,
                        unit > 0x1000000000000000,
                ;
            }
            return u64::MAX;
        }
        let unit: u128 = power_of_two(x.exponent as u32);
        assert(m * unit <= 0x20000000000000 * 0x1000000000000000) by (nonlinear_arith)
            requires
                0 <= m < 0x20000000000000,
                0 <= unit <= 0x1000000000000000,
        ;
        let n: u128 = m * unit;
        if n <= u64::MAX as u128 {
            n as u64
        } else {
            u64::MAX
        }
    } else {
        let down: i64 = if x.exponent < -200 {
            200
        } else {
            -x.exponent
        };
        let ghost k = (-x.exponent) as nat;
        proof {
            lemma_wide();
        }
        if down > 60 {
            proof {
                lemma_pow2_strictly_increases(60, k);
                let unit = pow2(k) as int;
                let n = m + unit - 1;
                if m == 0 {
                    vstd::arithmetic::div_mod::lemma_basic_div(n, unit);
                } else {
                    vstd::arithmetic::div_mod::lemma_fundamental_div_mod_converse(
                        n,
                        unit,
                        1,
                        m - 1,
                    );
                }
            }
            return if x.mantissa == 0 {
                0
            } else {
                1
            };
        }
        let unit: u128 = power_of_two(down as u32);
        proof {
            lemma_pow2_pos(k);
        }
        let n: u128 = (m + unit - 1) / unit;
        proof {
            let total = (m + unit - 1) as int;
            assert(n <= total) by (nonlinear_arith)
                requires
                    n == total / (unit as int),
                    unit >= 1,
                    total >= 0,
            ;
        }
        n as u64
    }
}

/// Products keep the order of their first factors.
pub proof fn lemma_times_monotone(x: Number, y: Number, s: Number)
    requires
        x.wf(),
        y.wf(),
        s.wf(),
        x.value() <= y.value(),
    ensures
        x.times(s).value() <= y.times(s).value(),
{
    lemma_times(x, s);
    lemma_times(y, s);
    lemma_value_positive(x.times(s));
    lemma_value_positive(y.times(s));
    lemma_value_positive(x);
    lemma_value_positive(y);
    let a = x.mantissa * s.mantissa;
    let b = y.mantissa * s.mantissa;
    if x.is_zero() {
        assert(a == 0) by (nonlinear_arith)
            requires
                a == x.mantissa * s.mantissa,
                x.mantissa == 0,
        ;
    } else {
        lemma_order(x, y);
        let gap = (y.exponent - x.exponent) as nat;
        let base = x.exponent + s.exponent;
        lemma_pow2_pos(gap);
        let unit = pow2(gap) as int;
        assert(a >= 0 && b >= 0) by (nonlinear_arith)
            requires
                a == x.mantissa * s.mantissa,
                b == y.mantissa * s.mantissa,
                x.mantissa >= 0,
                y.mantissa >= 0,
                s.mantissa >= 0,
        ;
        lemma_aligned(y.mantissa, y.exponent, x.exponent);
        let moved = y.mantissa * unit;
        let t = two_to(x.exponent);
        lemma_two_to(x.exponent);
        lemma_product_order(x.mantissa as real, moved as real, t);
        assert(x.mantissa <= moved);
        assert(a <= b * unit) by (nonlinear_arith)
            requires
                a == x.mantissa * s.mantissa,
                b == y.mantissa * s.mantissa,
                moved == y.mantissa * unit,
                x.mantissa <= moved,
                s.mantissa >= 0,
        ;
        lemma_nearest_scaled(b, gap);
        assert(b * unit >= 0) by (nonlinear_arith)
            requires
                b >= 0,
                unit >= 0,
        ;
        lemma_nearest_monotone(a, 1, b * unit, 1);
        lemma_shifted_value(nearest(a, 1), base);
        lemma_shifted_value(nearest(b * unit, 1), base);
        lemma_two_to(base);
        lemma_product_order(nearest(a, 1).value(), nearest(b * unit, 1).value(), two_to(base));
    }
}

/// Multiplying by a power of two only moves the exponent.
pub proof fn lemma_nearest_scaled(n: int, k: nat)
    requires
        n >= 0,
    ensures
        nearest(n * pow2(k), 1) == nearest(n, 1).shifted(k as int),
    decreases k,
{
    lemma2_to64();
    if n == 0 {
        assert(0 * pow2(k) == 0) by (nonlinear_arith);
    } else if k == 0 {
        assert(n * 1 == n);
    } else {
        let j = (k - 1) as nat;
        let m = n * pow2(j);
        lemma_pow2_pos(j);
        lemma_pow2_unfold(k);
        assert(n * (2 * pow2(j)) == 2 * m) by (nonlinear_arith)
            requires
                m == n * pow2(j),
        ;
        assert(m > 0) by (nonlinear_arith)
            requires
                m == n * pow2(j),
                n > 0,
                pow2(j) > 0,
        ;
        lemma_nearest_scaled(n, j);
        lemma_nearest_doubled(m, 1);
        lemma_nearest_near(n, 1);
    }
}

proof fn lemma_nearest_doubled(num: int, den: int)
    requires
        num > 0,
        den > 0,
    ensures
        nearest(2 * num, den) == nearest(num, den).shifted(1),
    decreases
            (if num >= MANTISSA_LOW * den {
                num - MANTISSA_LOW * den + 1
            } else {
                0
            }),
{
    if num < MANTISSA_LOW * den {
        lemma_nearest_step(num, den);
        lemma_nearest_near(2 * num, den);
    } else {
        lemma_nearest_step(2 * num, den);
        lemma_nearest_halved(num, den);
    }
}

/// Doubling both parts of a ratio changes nothing.
proof fn lemma_nearest_halved(num: int, den: int)
    requires
        num > 0,
        den > 0,
    ensures
        nearest(2 * num, 2 * den) == nearest(num, den),
    decreases
            (if num < MANTISSA_LOW * den {
                MANTISSA_LOW * den - num
            } else if num >= MANTISSA_HIGH * den {
                num - MANTISSA_HIGH * den + 1
            } else {
                0
            }),
{
    if num < MANTISSA_LOW * den {
        lemma_nearest_step(num, den);
        lemma_nearest_step(2 * num, 2 * den);
        lemma_nearest_halved(2 * num, den);
    } else if num >= MANTISSA_HIGH * den {
        lemma_nearest_step(num, den);
        lemma_nearest_step(2 * num, 2 * den);
        lemma_nearest_halved(num, 2 * den);
    } else {
        vstd::arithmetic::div_mod::lemma_fundamental_div_mod(num, den);
        vstd::arithmetic::div_mod::lemma_mod_bound(num, den);
        let q = num / den;
        let r = num % den;
        assert(2 * num == q * (2 * den) + 2 * r) by (nonlinear_arith)
            requires
                num == den * q + r,
        ;
        vstd::arithmetic::div_mod::lemma_fundamental_div_mod_converse(
            2 * num,
            2 * den,
            q,
            2 * r,
        );
    }
}

/// Seconds are a number.
pub proof fn lemma_seconds(nanos: int)
    requires
        nanos >= 0,
    ensures
        seconds_of(nanos).wf(),
{
    let a = nanos / 1_000_000_000;
    let b = nanos % 1_000_000_000;
    lemma_nearest_near(a, 1);
    lemma_nearest_near(b, 1);
    lemma_nearest_near(1_000_000_000, 1);
    lemma_over(whole(b), whole(1_000_000_000));
    lemma_plus(whole(a), whole(b).over(whole(1_000_000_000)));
}

pub proof fn lemma_nanos_positive(x: Number)
    requires
        x.wf(),
    ensures
        nanos_of(x) >= 0,
{
    let (a, b) = billionfold(x);
    lemma_billionfold(x);
    lemma_nearest_whole(a, b);
    vstd::arithmetic::div_mod::lemma_div_pos_is_pos(a, b);
}

/// Whole numbers of at most 53 bits are exact.
pub proof fn lemma_whole_exact(k: int)
    requires
        0 <= k < MANTISSA_HIGH,
    ensures
        whole(k).value() == k as real,
        whole(k).wf(),
    decreases MANTISSA_HIGH - k,
{
    lemma_two_to(0);
    lemma_nearest_near(k, 1);
    if k == 0 {
        assert((0 as real) * two_to(0) == 0 as real) by (nonlinear_arith);
    } else if k < MANTISSA_LOW {
        lemma_whole_exact(2 * k);
        lemma_nearest_step(k, 1);
        lemma_shifted_value(whole(2 * k), -1);
        lemma_halves(whole(2 * k).value(), 1 as real);
        assert(two_to(-1) == (1 as real) / (2 as real));
    } else {
        lemma_nearest_whole_of_whole(k);
        lemma_times_one(k as real);
    }
}

/// The number one.
pub proof fn lemma_whole_one()
    ensures
        whole(1) == (Number { mantissa: MANTISSA_LOW as int, exponent: -52 }),
        whole(1).value() == 1 as real,
        whole(1).wf(),
{
    lemma_wide();
    lemma_whole_exact(1);
    lemma_nearest_scaled(1, 52);
    lemma_nearest_whole_of_whole(MANTISSA_LOW as int);
}

/// One less than a whole number.
pub proof fn lemma_whole_less_one(k: int)
    requires
        1 <= k < MANTISSA_HIGH,
    ensures
        whole(1).at_most(whole(k)),
        whole(k).minus(whole(1)) == whole(k - 1),
{
    let x = whole(k);
    let y = whole(1);
    lemma_whole_one();
    lemma_whole_exact(k);
    lemma_order(y, x);
    lemma_wide();
    let gap = (x.exponent + 52) as nat;
    let moved = x.mantissa * pow2(gap);
    let t = two_to(-52);
    lemma_aligned(x.mantissa, x.exponent, -52);
    lemma_two_to(-52);
    lemma_two_to_whole(52);
    lemma_two_to_adds(52, -52);
    lemma_two_to(0);
    let u = two_to(52);
    lemma_regroup(k as real, u, t);
    lemma_times_one(k as real);
    lemma_real_product(k, MANTISSA_LOW as int);
    assert(moved as real * t == (k * MANTISSA_LOW) as real * t);
    lemma_product_order(moved as real, (k * MANTISSA_LOW) as real, t);
    lemma_product_order((k * MANTISSA_LOW) as real, moved as real, t);
    assert(moved == k * MANTISSA_LOW);
    assert(k * MANTISSA_LOW - MANTISSA_LOW == (k - 1) * pow2(52));
    lemma_nearest_scaled(k - 1, 52);
}

/// The ceiling is not below the number.
pub proof fn lemma_ceiling(x: Number)
    requires
        x.wf(),
    ensures
        ceiling(x) >= 0,
        ceiling(x) as real >= x.value(),
{
    let m = x.mantissa;
    if x.exponent >= 0 {
        let n = x.exponent as nat;
        lemma_two_to_whole(n);
        lemma_pow2_pos(n);
        lemma_real_product(m, pow2(n) as int);
        assert(m * pow2(n) >= 0) by (nonlinear_arith)
            requires
                m >= 0,
        ;
    } else {
        let n = (-x.exponent) as nat;
        let unit = pow2(n) as int;
        let total = m + unit - 1;
        let q = total / unit;
        lemma_pow2_pos(n);
        vstd::arithmetic::div_mod::lemma_fundamental_div_mod(total, unit);
        vstd::arithmetic::div_mod::lemma_mod_bound(total, unit);
        vstd::arithmetic::div_mod::lemma_div_pos_is_pos(total, unit);
        assert(unit * q == q * unit) by (nonlinear_arith);
        assert(q * unit >= m);
        lemma_real_product(q, unit);
        lemma_two_to_whole(n);
        lemma_two_to_adds(x.exponent, n as int);
        lemma_two_to(x.exponent);
        let t = two_to(x.exponent);
        let u = two_to(n as int);
        lemma_two_to(n as int);
        lemma_regroup(m as real, t, u);
        lemma_times_one(m as real);
        lemma_product_order(x.value(), q as real, u);
    }
}

/// The ceiling is at most one above the number.
pub proof fn lemma_ceiling_below(x: Number)
    requires
        x.wf(),
    ensures
        (ceiling(x) - 1) as real <= x.value(),
{
    let m = x.mantissa;
    if x.exponent >= 0 {
        let n = x.exponent as nat;
        lemma_two_to_whole(n);
        lemma_real_product(m, pow2(n) as int);
    } else {
        let n = (-x.exponent) as nat;
        let unit = pow2(n) as int;
        let total = m + unit - 1;
        let q = total / unit;
        lemma_pow2_pos(n);
        vstd::arithmetic::div_mod::lemma_fundamental_div_mod(total, unit);
        vstd::arithmetic::div_mod::lemma_mod_bound(total, unit);
        assert(unit * q == (q - 1) * unit + unit) by (nonlinear_arith);
        assert((q - 1) * unit <= m);
        lemma_real_product(q - 1, unit);
        lemma_two_to_whole(n);
        lemma_two_to_adds(x.exponent, n as int);
        let t = two_to(x.exponent);
        let u = two_to(n as int);
        lemma_two_to(n as int);
        lemma_regroup(m as real, t, u);
        lemma_times_one(m as real);
        lemma_product_order((q - 1) as real, x.value(), u);
    }
}

/// The nanoseconds of a number of seconds are at most one half away from it.
pub proof fn lemma_nanos_near(x: Number)
    requires
        x.wf(),
    ensures
        (2 as real) * (nanos_of(x) as real) <= (2 as real) * (x.value() * (1_000_000_000 as real))
            + (1 as real),
        (2 as real) * (nanos_of(x) as real) >= (2 as real) * (x.value() * (1_000_000_000 as real))
            - (1 as real),
{
    let (a, b) = billionfold(x);
    let n = nanos_of(x);
    let v = x.value() * (1_000_000_000 as real);
    lemma_billionfold(x);
    lemma_nearest_whole(a, b);
    lemma_real_product(n, b);
    let w = n as real;
    let k = b as real;
    let top = (2 as real) * v + (1 as real);
    let low = (2 as real) * v - (1 as real);
    lemma_half_steps(v, w, k);
    lemma_product_order((2 as real) * w, top, k);
    lemma_product_order(low, (2 as real) * w, k);
}

proof fn lemma_half_steps(v: real, w: real, k: real)
    by (nonlinear_arith)
    ensures
        ((2 as real) * v + (1 as real)) * k == (2 as real) * (v * k) + k,
        ((2 as real) * v - (1 as real)) * k == (2 as real) * (v * k) - k,
        ((2 as real) * w) * k == (2 as real) * (w * k),
{
}

} // verus!
