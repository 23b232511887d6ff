//! Numbers in scientific notation.
//!
//! Deviations, scores, correlations and slopes are square roots and quotients of
//! numbers of any size. They are worked out exactly and then cut to 28 digits,
//! wherever the decimal point stands, so that a result has as many digits for
//! small numbers as for great ones.

use crate::decimal::{lemma_pow10_adds, lemma_pow10_positive, pow10};
use crate::natural::{base, weight, Integer, Natural};
use vstd::prelude::*;

verus! {

/// The number `mantissa × 10^exponent`, or its negative. The mantissa has 28
/// digits; zero has the mantissa and the exponent zero.
#[derive(Clone, Copy, Debug, PartialEq, Eq, Structural)]
pub struct Scientific {
    /// Whether the number is below zero.
    pub negative: bool,
    /// The digits.
    pub mantissa: u128,
    /// The power of ten by which the digits are multiplied.
    pub exponent: i128,
}

/// The least mantissa of a number that is not zero.
pub open spec fn least_mantissa() -> int {
    1_000_000_000_000_000_000_000_000_000
}

/// The number zero.
pub open spec fn zero() -> Scientific {
    Scientific { negative: false, mantissa: 0, exponent: 0 }
}

/// What a square takes on where its root is multiplied by `10^e`.
pub open spec fn scale_up(e: int) -> int {
    if e >= 0 {
        pow10((2 * e) as nat)
    } else {
        1
    }
}

/// What a square takes on where its root is divided by `10^-e`.
pub open spec fn scale_down(e: int) -> int {
    if e < 0 {
        pow10((-2 * e) as nat)
    } else {
        1
    }
}

/// Whether `m × 10^e` is the square root of `num / den` cut at the last digit of
/// `m`.
pub open spec fn is_cut_root(m: int, e: int, num: int, den: int) -> bool {
    (m * m) * (den * scale_up(e)) <= num * scale_down(e) < ((m + 1) * (m + 1)) * (den * scale_up(e))
}

/// Whether a number is the square root of `num / den`, or its negative, cut to 28
/// digits.
pub open spec fn is_root(x: Scientific, negative: bool, num: int, den: int) -> bool {
    if num == 0 {
        x == zero()
    } else {
        &&& x.negative == negative
        &&& least_mantissa() <= x.mantissa < 10 * least_mantissa()
        &&& is_cut_root(x.mantissa as int, x.exponent as int, num, den)
    }
}

/// Whether a partial function returns the square root of `num / den`, or its
/// negative, where `when` holds, and `None` where it does not.
pub open spec fn yields_root(
    r: Option<Scientific>,
    when: bool,
    negative: bool,
    num: int,
    den: int,
) -> bool {
    match r {
        Some(x) => when && is_root(x, negative, num, den),
        None => !when,
    }
}

/// Whether a partial function returns the quotient of `num` and `den`, cut to 28
/// digits, where `when` holds, and `None` where it does not.
pub open spec fn yields_ratio(r: Option<Scientific>, when: bool, num: int, den: int) -> bool {
    yields_root(r, when, num < 0, num * num, den * den)
}

proof fn lemma_scales(e: int)
    ensures
        scale_up(e) > 0,
        scale_down(e) > 0,
        scale_up(e + 1) * scale_down(e) == 100 * (scale_up(e) * scale_down(e + 1)),
{
    if e >= 0 {
        lemma_pow10_positive((2 * e) as nat);
        lemma_pow10_positive((2 * e + 2) as nat);
        lemma_pow10_step((2 * e) as nat);
    } else {
        lemma_pow10_positive((-2 * e) as nat);
        if e < -1 {
            lemma_pow10_positive((-2 * e - 2) as nat);
        }
        lemma_pow10_step((-2 * e - 2) as nat);
        assert(pow10(0) == 1);
    }
    let (u, d, v, c) = (scale_up(e), scale_down(e), scale_up(e + 1), scale_down(e + 1));
    assert(v * d == 100 * (u * c)) by (nonlinear_arith)
        requires
            (v == 100 * u && d == 1 && c == 1) || (d == 100 * c && u == 1 && v == 1),
    ;
}

proof fn lemma_pow10_step(n: nat)
    ensures
        pow10(n + 2) == 100 * pow10(n),
{
    assert(pow10(n + 2) == 10 * pow10(n + 1));
    assert(pow10(n + 1) == 10 * pow10(n));
}

/// A number with a greater exponent is greater: it cannot be the root of the same
/// square.
proof fn lemma_exponents(d: int, k: nat)
    ensures
        scale_up(d + k + 1) * scale_down(d) >= 100 * (scale_up(d) * scale_down(d + k + 1)),
    decreases k,
{
    lemma_scales(d);
    if k > 0 {
        lemma_exponents(d, (k - 1) as nat);
        let e = d + k;
        lemma_scales(e);
        lemma_scales(d);
        lemma_scales(e + 1);
        let (u0, d0) = (scale_up(d), scale_down(d));
        let (u1, d1) = (scale_up(e), scale_down(e));
        let (u2, d2) = (scale_up(e + 1), scale_down(e + 1));
        assert(u2 * d0 >= 100 * (u0 * d2)) by (nonlinear_arith)
            requires
                u1 * d0 >= 100 * (u0 * d1),
                u2 * d1 == 100 * (u1 * d2),
                u0 > 0,
                d0 > 0,
                u1 > 0,
                d1 > 0,
                u2 > 0,
                d2 > 0,
        {
            assert((u2 * d1) * d0 == 100 * (u1 * d2) * d0);
            assert((u1 * d0) * d2 >= 100 * (u0 * d1) * d2);
            assert((u2 * d0) * d1 >= 100 * (100 * (u0 * d2)) * d1);
            assert((u0 * d2) * d1 > 0);
        }
    }
}

proof fn lemma_lower_exponent(x: Scientific, y: Scientific, num: int, den: int)
    requires
        num > 0,
        den > 0,
        is_root(x, x.negative, num, den),
        is_root(y, y.negative, num, den),
    ensures
        x.exponent >= y.exponent,
{
    if x.exponent < y.exponent {
        let (a, b) = (x.exponent as int, y.exponent as int);
        lemma_exponents(a, (b - a - 1) as nat);
        lemma_scales(a);
        lemma_scales(b);
        let (u0, d0) = (scale_up(a), scale_down(a));
        let (u1, d1) = (scale_up(b), scale_down(b));
        let (m, k) = (x.mantissa as int, y.mantissa as int);
        let t = least_mantissa();
        assert((m + 1) * (m + 1) <= 100 * (t * t)) by (nonlinear_arith)
            requires
                0 <= m < 10 * t,
        ;
        assert(k * k >= t * t) by (nonlinear_arith)
            requires
                k >= t,
                t > 0,
        ;
        let (p, q, w) = ((m + 1) * (m + 1), k * k, t * t);
        let (x0, x1) = (den * (u0 * d1), den * (u1 * d0));
        assert((num * d0) * d1 < (p * (den * u0)) * d1) by (nonlinear_arith)
            requires
                num * d0 < p * (den * u0),
                d1 > 0,
        ;
        assert((q * (den * u1)) * d0 <= (num * d1) * d0) by (nonlinear_arith)
            requires
                q * (den * u1) <= num * d1,
                d0 > 0,
        ;
        assert((num * d0) * d1 == (num * d1) * d0) by (nonlinear_arith);
        assert((p * (den * u0)) * d1 == p * x0) by (nonlinear_arith)
            requires
                x0 == den * (u0 * d1),
        ;
        assert((q * (den * u1)) * d0 == q * x1) by (nonlinear_arith)
            requires
                x1 == den * (u1 * d0),
        ;
        assert(u0 * d1 > 0) by (nonlinear_arith)
            requires
                u0 > 0,
                d1 > 0,
        ;
        assert(x0 > 0) by (nonlinear_arith)
            requires
                x0 == den * (u0 * d1),
                den > 0,
                u0 * d1 > 0,
        ;
        assert(x1 >= 100 * x0) by (nonlinear_arith)
            requires
                x0 == den * (u0 * d1),
                x1 == den * (u1 * d0),
                u1 * d0 >= 100 * (u0 * d1),
                den > 0,
        ;
        assert(p * x0 <= (100 * w) * x0) by (nonlinear_arith)
            requires
                p <= 100 * w,
                x0 > 0,
        ;
        assert(q * x1 >= w * x1) by (nonlinear_arith)
            requires
                q >= w,
                x1 > 0,
        ;
        assert(w * x1 >= w * (100 * x0)) by (nonlinear_arith)
            requires
                x1 >= 100 * x0,
                w > 0,
        ;
        assert(w * (100 * x0) == (100 * w) * x0) by (nonlinear_arith);
    }
}

/// A positive number has one root of 28 digits at most.
pub proof fn root_is_the_only_one(
    x: Scientific,
    y: Scientific,
    negative: bool,
    num: int,
    den: int,
)
    requires
        num >= 0,
        den > 0,
        is_root(x, negative, num, den),
        is_root(y, negative, num, den),
    ensures
        x == y,
{
    if num > 0 {
        lemma_lower_exponent(x, y, num, den);
        lemma_lower_exponent(y, x, num, den);
        let w = den * scale_up(x.exponent as int);
        lemma_scales(x.exponent as int);
        assert(w > 0) by (nonlinear_arith)
            requires
                den > 0,
                scale_up(x.exponent as int) > 0,
                w == den * scale_up(x.exponent as int),
        ;
        lemma_mantissas(x.mantissa as int, y.mantissa as int, w);
        lemma_mantissas(y.mantissa as int, x.mantissa as int, w);
    }
}

proof fn lemma_mantissas(m: int, k: int, w: int)
    requires
        m >= 0,
        k >= 0,
        w > 0,
    ensures
        m < k ==> ((m + 1) * (m + 1)) * w <= (k * k) * w,
{
    if m < k {
        assert((m + 1) * (m + 1) <= k * k) by (nonlinear_arith)
            requires
                0 <= m < k,
        ;
        assert(((m + 1) * (m + 1)) * w <= (k * k) * w) by (nonlinear_arith)
            requires
                (m + 1) * (m + 1) <= k * k,
                w > 0,
        ;
    }
}

/// A power of ten with many zeros has many digits.
proof fn lemma_many_zeros(e: nat, n: nat)
    requires
        e >= 16 * n,
    ensures
        pow10(2 * e) >= weight(n),
    decreases n,
{
    lemma_pow10_positive(2 * e);
    if n > 0 {
        lemma_many_zeros((e - 16) as nat, (n - 1) as nat);
        lemma_pow10_adds(32, (2 * e - 32) as nat);
        lemma_pow10_positive((2 * e - 32) as nat);
        assert(pow10(32) >= base()) by {
            reveal_with_fuel(pow10, 33);
        }
        let (p, q, w) = (pow10(32), pow10((2 * e - 32) as nat), weight((n - 1) as nat));
        assert(p * q >= base() * w) by (nonlinear_arith)
            requires
                p >= base(),
                q >= w,
                q > 0,
        ;
    }
}

/// A power of ten that is not above a number that can be held is not too great to
/// be counted.
proof fn lemma_counted(e: nat, size: nat, v: int)
    requires
        pow10(2 * e) <= v < weight(size),
        size <= usize::MAX,
    ensures
        e < 16 * usize::MAX,
{
    if e >= 16 * size {
        lemma_many_zeros(e, size);
    }
}

impl Scientific {
    /// Whether the number is zero.
    pub fn is_zero(&self) -> (r: bool)
        ensures
            r == (self.mantissa == 0),
    {
        self.mantissa == 0
    }
}

/// The square root of `num / den`, or its negative, cut to 28 digits.
pub fn root_of(negative: bool, num: &Natural, den: &Natural) -> (r: Scientific)
    requires
        den@ > 0,
    ensures
        is_root(r, negative, num@, den@),
        r.exponent > i128::MIN,
{
    if num.is_zero() {
        return Scientific { negative: false, mantissa: 0, exponent: 0 };
    }
    let t: u128 = 1_000_000_000_000_000_000_000_000_000;
    let hundred = Natural::new(100);
    let low = Natural::new(t).times(&Natural::new(t));
    let high = low.times(&hundred);
    let mut n = num.copied();
    let mut d = den.copied();
    let mut e: i128 = 0;
    let size: usize = num.counted();
    proof {
        num.is_not_negative();
        num.is_bounded();
        assert(den@ * pow10(0) == den@) by (nonlinear_arith)
            requires
                pow10(0) == 1,
        ;
    }
    // A great number takes a power of ten away.
    while high.times(&d).is_at_most(&n)
        invariant
            0 <= e,
            size == num.size(),
            num@ < weight(size as nat),
            n@ == num@ > 0,
            den@ > 0,
            d@ == den@ * pow10((2 * e) as nat),
            d@ > 0,
            low@ == least_mantissa() * least_mantissa(),
            high@ == 100 * low@,
            hundred@ == 100,
            e > 0 ==> low@ * d@ <= n@,
        decreases num@ - d@,
    {
        proof {
            lemma_pow10_positive((2 * e) as nat);
            lemma_pow10_step((2 * e) as nat);
            let (h, p, x) = (high@, pow10((2 * e) as nat), den@);
            assert(p <= h * (x * p)) by (nonlinear_arith)
                requires
                    h >= 1,
                    x >= 1,
                    p >= 1,
            ;
            assert(d@ < d@ * 100 <= h * d@) by (nonlinear_arith)
                requires
                    h >= 100,
                    d@ > 0,
            ;
            lemma_counted(e as nat, size as nat, num@);
            assert((x * p) * 100 == x * (100 * p)) by (nonlinear_arith);
            assert(low@ * (d@ * 100) == (100 * low@) * d@) by (nonlinear_arith);
        }
        d = d.times(&hundred);
        e += 1;
    }
    let bound = low.times(den);
    let bound_size: usize = bound.counted();
    proof {
        bound.is_bounded();
        assert(num@ * pow10(0) == num@) by (nonlinear_arith)
            requires
                pow10(0) == 1,
        ;
    }
    // A small one gets zeros.
    while !low.times(&d).is_at_most(&n)
        invariant
            num@ > 0,
            den@ > 0,
            e >= 0 ==> n@ == num@ && d@ == den@ * pow10((2 * e) as nat),
            e <= 0 ==> d@ == den@ && n@ == num@ * pow10((-2 * e) as nat),
            e > 0 ==> low@ * d@ <= n@,
            d@ > 0,
            n@ > 0,
            n@ < high@ * d@,
            low@ == least_mantissa() * least_mantissa(),
            high@ == 100 * low@,
            hundred@ == 100,
            bound@ == low@ * den@,
            bound@ < weight(bound_size as nat),
            -16 * usize::MAX - 1 <= e,
        decreases high@ * d@ - n@,
    {
        proof {
            let k = -e;
            lemma_pow10_positive((2 * k) as nat);
            lemma_pow10_step((2 * k) as nat);
            let p = pow10((2 * k) as nat);
            assert(p <= num@ * p) by (nonlinear_arith)
                requires
                    num@ >= 1,
                    p >= 1,
            ;
            lemma_counted(k as nat, bound_size as nat, bound@);
            assert((num@ * p) * 100 == num@ * (100 * p)) by (nonlinear_arith);
            assert((100 * low@) * d@ == 100 * (low@ * d@)) by (nonlinear_arith);
        }
        n = n.times(&hundred);
        e -= 1;
    }
    let mut m: u128 = t;
    let mut above: u128 = 10 * t;
    assert(((10 * t) * (10 * t)) * d@ == (100 * (t * t)) * d@) by (nonlinear_arith);
    while above - m > 1
        invariant
            t == least_mantissa(),
            t <= m < above <= 10 * t,
            (m * m) * d@ <= n@ < (above * above) * d@,
        decreases above - m,
    {
        let mid: u128 = m + (above - m) / 2;
        let square = Natural::new(mid).times(&Natural::new(mid));
        if square.times(&d).is_at_most(&n) {
            m = mid;
        } else {
            above = mid;
        }
    }
    proof {
        let p = pow10((2 * e) as nat);
        assert(above == m + 1);
        assert(scale_down(e as int) == 1 ==> num@ * scale_down(e as int) == num@) by (nonlinear_arith);
        assert(scale_up(e as int) == 1 ==> den@ * scale_up(e as int) == den@) by (nonlinear_arith);
    }
    Scientific { negative, mantissa: m, exponent: e }
}

/// The quotient of two numbers, cut to 28 digits.
pub fn ratio_of(negative: bool, num: &Natural, den: &Natural) -> (r: Scientific)
    requires
        den@ > 0,
    ensures
        is_root(r, negative, num@ * num@, den@ * den@),
{
    proof {
        assert(den@ * den@ > 0) by (nonlinear_arith)
            requires
                den@ > 0,
        ;
    }
    root_of(negative, &num.times(num), &den.times(den))
}

/// The number one less the number `m × 10^e`, times `rest_den`.
pub open spec fn rest_num(x: Scientific) -> int {
    let m = if x.negative {
        -x.mantissa
    } else {
        x.mantissa as int
    };
    if x.exponent >= 0 {
        1 - m * pow10(x.exponent as nat)
    } else {
        pow10((-x.exponent) as nat) - m
    }
}

/// The power of ten by which a number is a whole one.
pub open spec fn rest_den(x: Scientific) -> int {
    if x.exponent >= 0 {
        1
    } else {
        pow10((-x.exponent) as nat)
    }
}

/// Ten to the power `n`.
fn ten_to(n: u128) -> (r: Natural)
    ensures
        r@ == pow10(n as nat),
        r@ > 0,
{
    let ten = Natural::new(10);
    let mut r = Natural::new(1);
    let mut i: u128 = 0;
    while i < n
        invariant
            i <= n,
            ten@ == 10,
            r@ == pow10(i as nat),
        decreases n - i,
    {
        r = r.times(&ten);
        i += 1;
        assert(pow10(i as nat) == 10 * pow10((i - 1) as nat));
    }
    proof {
        lemma_pow10_positive(n as nat);
    }
    r
}

/// One less a number, cut to 28 digits.
pub fn one_less(x: Scientific) -> (r: Scientific)
    requires
        x.exponent > i128::MIN,
    ensures
        yields_ratio(Some(r), true, rest_num(x), rest_den(x)),
{
    let m = Integer::signed(x.negative, Natural::new(x.mantissa));
    let (num, den) = if x.exponent >= 0 {
        let up = Integer::signed(false, ten_to(x.exponent as u128));
        (Integer::new(1).minus(&m.times(&up)), Natural::new(1))
    } else {
        let down = ten_to((-x.exponent) as u128);
        (Integer::signed(false, down.copied()).minus(&m), down)
    };
    proof {
        let v = num@;
        assert((-v) * (-v) == v * v) by (nonlinear_arith);
    }
    ratio_of(num.is_negative(), &num.magnitude(), &den)
}

} // verus!
