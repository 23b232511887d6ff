//! Laws of decimal arithmetic.
//!
//! They say how far a rounded result can be from the exact one: a result that
//! needs no rounding is exact, rounding keeps the order of numbers, and it does
//! not cross a whole number.

use crate::decimal::{
    add_units, amounts_to, fits, fitting_place, hundredths, is_nought, larger, lemma_pow10_28,
    lemma_pow10_adds, lemma_pow10_positive, magnitude, mantissa_at, max_mantissa, minus, mul_units,
    nearest, nearest_from, nearest_integer, nought, over, over_or, plus, pow10, quotient_tie,
    smaller, sub_units, times, unit, whole, yields, Decimal, Num, Tie,
};
use crate::fraction::{fraction_of, Fraction};
use crate::series::count_of;
use std::cmp::Ordering;
use vstd::arithmetic::div_mod::{
    lemma_fundamental_div_mod, lemma_fundamental_div_mod_converse, lemma_mod_bound,
};
use vstd::prelude::*;
use vstd::std_specs::cmp::{PartialEqSpec, PartialOrdSpec};

verus! {

/// Rounding to an integer moves by half at most.
proof fn lemma_rounding_error(num: int, den: int, tie: Tie)
    requires
        den > 0,
    ensures
        -den <= 2 * (nearest_integer(num, den, tie) * den - num) <= den,
{
    let q = num / den;
    let r = num % den;
    lemma_fundamental_div_mod(num, den);
    lemma_mod_bound(num, den);
    assert(den * q == q * den) by (nonlinear_arith);
    assert((q + 1) * den == q * den + den) by (nonlinear_arith);
}

/// Rounding to an integer does not cross an integer.
proof fn lemma_rounding_bounds(num: int, den: int, tie: Tie, k: int)
    requires
        den > 0,
    ensures
        num >= k * den ==> nearest_integer(num, den, tie) >= k,
        num <= k * den ==> nearest_integer(num, den, tie) <= k,
{
    let m = nearest_integer(num, den, tie);
    lemma_rounding_error(num, den, tie);
    if num >= k * den && m < k {
        assert(m * den <= (k - 1) * den) by (nonlinear_arith)
            requires
                m <= k - 1,
                den > 0,
        ;
        assert((k - 1) * den == k * den - den) by (nonlinear_arith);
    }
    if num <= k * den && m > k {
        assert(m * den >= (k + 1) * den) by (nonlinear_arith)
            requires
                m >= k + 1,
                den > 0,
        ;
        assert((k + 1) * den == k * den + den) by (nonlinear_arith);
    }
}

/// Rounding to an integer keeps the order.
proof fn lemma_rounding_keeps_order(x: int, y: int, den: int, tx: Tie, ty: Tie)
    requires
        den > 0,
        x < y || (x == y && tx == ty),
    ensures
        nearest_integer(x, den, tx) <= nearest_integer(y, den, ty),
{
    lemma_fundamental_div_mod(x, den);
    lemma_mod_bound(x, den);
    lemma_fundamental_div_mod(y, den);
    lemma_mod_bound(y, den);
    let (p, q) = (x / den, y / den);
    if p > q {
        assert(den * p >= den * q + den) by (nonlinear_arith)
            requires
                p >= q + 1,
                den > 0,
        ;
    }
}

/// The place at which a number is rounded: its mantissa fits there, and not one
/// place further.
proof fn lemma_place(num: int, den: int, place: nat, tie: Tie) -> (p: nat)
    ensures
        p <= place,
        match nearest_from(num, den, place, tie) {
            Some(v) => {
                &&& fits(mantissa_at(num, den, p, tie))
                &&& v == mantissa_at(num, den, p, tie) * pow10((28 - p) as nat)
                &&& p < place ==> !fits(mantissa_at(num, den, p + 1, tie))
            },
            None => p == 0 && !fits(mantissa_at(num, den, 0, tie)),
        },
    decreases place,
{
    if fits(mantissa_at(num, den, place, tie)) {
        place
    } else if place == 0 {
        0
    } else {
        lemma_place(num, den, (place - 1) as nat, tie)
    }
}

proof fn lemma_exact_from(num: int, den: int, m: int, at: nat, place: nat, tie: Tie)
    requires
        den > 0,
        fits(m),
        at <= place <= 28,
        num * pow10(at) == m * den,
    ensures
        nearest_from(num, den, place, tie) == Some(m * pow10((28 - at) as nat)),
    decreases place,
{
    let up = pow10((place - at) as nat);
    lemma_pow10_adds(at, (place - at) as nat);
    assert(num * pow10(place) == (m * up) * den) by (nonlinear_arith)
        requires
            pow10(place) == pow10(at) * up,
            num * pow10(at) == m * den,
    ;
    lemma_rounding_bounds(num * pow10(place), den, tie, m * up);
    assert(mantissa_at(num, den, place, tie) == m * up);
    if fits(m * up) {
        lemma_pow10_adds((place - at) as nat, (28 - place) as nat);
        assert((m * up) * pow10((28 - place) as nat) == m * (up * pow10((28 - place) as nat)))
            by (nonlinear_arith);
    } else {
        if place == at {
            assert(m * up == m) by (nonlinear_arith)
                requires
                    up == 1,
            ;
        }
        lemma_exact_from(num, den, m, at, (place - 1) as nat, tie);
    }
}

/// A number that has a mantissa and a place is not rounded: where `num / den` is
/// `m / 10^at`, that is the result.
pub proof fn exact_number_is_kept(num: int, den: int, m: int, at: nat, tie: Tie)
    requires
        den > 0,
        fits(m),
        at <= 28,
        num * pow10(at) == m * den,
    ensures
        nearest(num, den, tie) == Some(m * pow10((28 - at) as nat)),
{
    lemma_exact_from(num, den, m, at, 28, tie);
}

/// Rounding does not cross a whole number.
pub proof fn rounding_keeps_whole_bounds(num: int, den: int, k: int, tie: Tie)
    requires
        den > 0,
        nearest(num, den, tie) is Some,
    ensures
        num >= k * den ==> nearest(num, den, tie)->0 >= k * unit(),
        num <= k * den ==> nearest(num, den, tie)->0 <= k * unit(),
{
    let p = lemma_place(num, den, 28, tie);
    let m = mantissa_at(num, den, p, tie);
    let up = pow10(p);
    let down = pow10((28 - p) as nat);
    lemma_pow10_positive(p);
    lemma_pow10_positive((28 - p) as nat);
    lemma_pow10_adds(p, (28 - p) as nat);
    lemma_pow10_28();
    lemma_rounding_bounds(num * up, den, tie, k * up);
    assert(k * (up * down) == (k * up) * down) by (nonlinear_arith);
    if num >= k * den {
        assert(num * up >= (k * up) * den) by (nonlinear_arith)
            requires
                num >= k * den,
                up > 0,
        ;
        assert(m * down >= (k * up) * down) by (nonlinear_arith)
            requires
                m >= k * up,
                down > 0,
        ;
    }
    if num <= k * den {
        assert(num * up <= (k * up) * den) by (nonlinear_arith)
            requires
                num <= k * den,
                up > 0,
        ;
        assert(m * down <= (k * up) * down) by (nonlinear_arith)
            requires
                m <= k * up,
                down > 0,
        ;
    }
}

/// A number is in range where it does not exceed the greatest mantissa, and out
/// of range where it does by more than half.
pub proof fn range_is_that_of_the_mantissa(num: int, den: int, tie: Tie)
    requires
        den > 0,
    ensures
        -max_mantissa() * den <= num <= max_mantissa() * den ==> nearest(num, den, tie) is Some,
        2 * num > (2 * max_mantissa() + 1) * den ==> nearest(num, den, tie) is None,
        2 * num < -(2 * max_mantissa() + 1) * den ==> nearest(num, den, tie) is None,
{
    let top = max_mantissa();
    let p = lemma_place(num, den, 28, tie);
    lemma_rounding_bounds(num * pow10(0), den, tie, top);
    lemma_rounding_bounds(num * pow10(0), den, tie, -top);
    assert(num * pow10(0) == num) by (nonlinear_arith)
        requires
            pow10(0) == 1,
    ;
    let up = pow10(p);
    let m = mantissa_at(num, den, p, tie);
    lemma_pow10_positive(p);
    lemma_rounding_error(num * up, den, tie);
    if nearest(num, den, tie) is Some {
        assert(m * den <= top * den) by (nonlinear_arith)
            requires
                m <= top,
                den > 0,
        ;
        assert(m * den >= -top * den) by (nonlinear_arith)
            requires
                m >= -top,
                den > 0,
        ;
        assert((2 * top + 1) * den == 2 * (top * den) + den) by (nonlinear_arith);
        assert(-(2 * top + 1) * den == -(2 * (top * den) + den)) by (nonlinear_arith);
        assert(-top * den == -(top * den)) by (nonlinear_arith);
        if num >= 0 {
            assert(num * up >= num) by (nonlinear_arith)
                requires
                    num >= 0,
                    up >= 1,
            ;
        } else {
            assert(num * up <= num) by (nonlinear_arith)
                requires
                    num <= 0,
                    up >= 1,
            ;
        }
        assert(0 < top * den) by (nonlinear_arith)
            requires
                top > 0,
                den > 0,
        ;
    }
}

/// A number beyond the mantissa at one place is well above zero one place
/// before it.
proof fn lemma_not_small(num: int, den: int, p: nat, tie: Tie)
    requires
        den > 0,
        !fits(mantissa_at(num, den, p + 1, tie)),
    ensures
        num > 0 ==> 10 * mantissa_at(num, den, p, tie) > max_mantissa(),
        num < 0 ==> 10 * mantissa_at(num, den, p, tie) < -max_mantissa(),
        num != 0,
{
    let top = max_mantissa();
    let fine = mantissa_at(num, den, p + 1, tie);
    let m = mantissa_at(num, den, p, tie);
    let x = num * pow10(p);
    lemma_pow10_positive(p);
    assert(num * pow10(p + 1) == 10 * x) by (nonlinear_arith)
        requires
            pow10(p + 1) == 10 * pow10(p),
            x == num * pow10(p),
    ;
    lemma_rounding_error(10 * x, den, tie);
    lemma_rounding_error(x, den, tie);
    assert(num > 0 ==> x > 0) by (nonlinear_arith)
        requires
            x == num * pow10(p),
            pow10(p) > 0,
    ;
    assert(num < 0 ==> x < 0) by (nonlinear_arith)
        requires
            x == num * pow10(p),
            pow10(p) > 0,
    ;
    assert(num == 0 ==> x == 0) by (nonlinear_arith)
        requires
            x == num * pow10(p),
    ;
    lemma_rounding_bounds(10 * x, den, tie, 0);
    lemma_rounding_bounds(x, den, tie, 7_922_816_251_426_433_759_354_395_034);
    lemma_rounding_bounds(x, den, tie, -7_922_816_251_426_433_759_354_395_034);
    if fine > top {
        assert(fine * den >= (top + 1) * den) by (nonlinear_arith)
            requires
                fine >= top + 1,
                den > 0,
        ;
        assert((top + 1) * den == top * den + den) by (nonlinear_arith);
        if 10 * m <= top {
            assert(m * den <= 7_922_816_251_426_433_759_354_395_033 * den) by (nonlinear_arith)
                requires
                    m <= 7_922_816_251_426_433_759_354_395_033,
                    den > 0,
            ;
            assert(top * den == 79_228_162_514_264_337_593_543_950_335 * den);
        }
    }
    if fine < -top {
        assert(fine * den <= (-top - 1) * den) by (nonlinear_arith)
            requires
                fine <= -top - 1,
                den > 0,
        ;
        assert((-top - 1) * den == -(top * den) - den) by (nonlinear_arith);
        if 10 * m >= -top {
            assert(m * den >= -7_922_816_251_426_433_759_354_395_033 * den) by (nonlinear_arith)
                requires
                    m >= -7_922_816_251_426_433_759_354_395_033,
                    den > 0,
            ;
            assert(top * den == 79_228_162_514_264_337_593_543_950_335 * den);
        }
    }
}

/// What becomes of the negative of a number midway between two neighbours, so
/// that it goes to the negative of the other's.
pub open spec fn mirrored(tie: Tie) -> Tie {
    match tie {
        Tie::Even => Tie::Even,
        Tie::Up => Tie::Down,
        Tie::Down => Tie::Up,
    }
}

proof fn lemma_rounding_mirrored(num: int, den: int, tie: Tie)
    requires
        den > 0,
    ensures
        nearest_integer(-num, den, mirrored(tie)) == -nearest_integer(num, den, tie),
{
    let q = num / den;
    let r = num % den;
    lemma_fundamental_div_mod(num, den);
    lemma_mod_bound(num, den);
    assert(den * q == q * den) by (nonlinear_arith);
    if r == 0 {
        assert(-num == (-q) * den + 0) by (nonlinear_arith)
            requires
                num == q * den,
        ;
        lemma_fundamental_div_mod_converse(-num, den, -q, 0);
    } else {
        assert(-num == (-q - 1) * den + (den - r)) by (nonlinear_arith)
            requires
                num == q * den + r,
        ;
        lemma_fundamental_div_mod_converse(-num, den, -q - 1, den - r);
    }
}

proof fn lemma_mirrored_from(num: int, den: int, place: nat, tie: Tie)
    requires
        den > 0,
    ensures
        match nearest_from(num, den, place, tie) {
            Some(v) => nearest_from(-num, den, place, mirrored(tie)) == Some(-v),
            None => nearest_from(-num, den, place, mirrored(tie)) is None,
        },
    decreases place,
{
    let m = mantissa_at(num, den, place, tie);
    let down = pow10((28 - place) as nat);
    lemma_rounding_mirrored(num * pow10(place), den, tie);
    assert((-num) * pow10(place) == -(num * pow10(place))) by (nonlinear_arith);
    assert((-m) * down == -(m * down)) by (nonlinear_arith);
    if !fits(m) && place > 0 {
        lemma_mirrored_from(num, den, (place - 1) as nat, tie);
    }
}

/// The negative of a number is rounded to the negative of its result.
pub proof fn rounding_is_symmetric(num: int, den: int, tie: Tie)
    requires
        den > 0,
    ensures
        match nearest(num, den, tie) {
            Some(v) => nearest(-num, den, mirrored(tie)) == Some(-v),
            None => nearest(-num, den, mirrored(tie)) is None,
        },
{
    lemma_mirrored_from(num, den, 28, tie);
}

/// A mantissa that fits at one place fits at each place before it.
proof fn lemma_fits_before(num: int, den: int, before: nat, place: nat, tie: Tie)
    requires
        den > 0,
        num >= 0,
        before <= place,
        fits(mantissa_at(num, den, place, tie)),
    ensures
        fits(mantissa_at(num, den, before, tie)),
{
    let up = pow10((place - before) as nat);
    lemma_pow10_positive((place - before) as nat);
    lemma_pow10_positive(before);
    lemma_pow10_adds(before, (place - before) as nat);
    assert(0 <= num * pow10(before) <= num * (pow10(before) * up)) by (nonlinear_arith)
        requires
            num >= 0,
            pow10(before) > 0,
            up >= 1,
    ;
    lemma_rounding_keeps_order(num * pow10(before), num * pow10(place), den, tie, tie);
    lemma_rounding_bounds(num * pow10(before), den, tie, 0);
}

proof fn lemma_mantissas_keep_order(x: int, y: int, den: int, place: nat, tx: Tie, ty: Tie)
    requires
        den > 0,
        x < y || (x == y && tx == ty),
    ensures
        mantissa_at(x, den, place, tx) <= mantissa_at(y, den, place, ty),
{
    lemma_pow10_positive(place);
    assert(x < y ==> x * pow10(place) < y * pow10(place)) by (nonlinear_arith)
        requires
            pow10(place) > 0,
    ;
    lemma_rounding_keeps_order(x * pow10(place), y * pow10(place), den, tx, ty);
}

proof fn lemma_order_above_zero(x: int, y: int, den: int, tx: Tie, ty: Tie)
    requires
        den > 0,
        0 <= x,
        x < y || (x == y && tx == ty),
        nearest(y, den, ty) is Some,
    ensures
        nearest(x, den, tx) is Some,
        nearest(x, den, tx)->0 <= nearest(y, den, ty)->0,
{
    let px = lemma_place(x, den, 28, tx);
    let py = lemma_place(y, den, 28, ty);
    let mx = mantissa_at(x, den, px, tx);
    let my = mantissa_at(y, den, py, ty);
    lemma_fits_before(y, den, 0, py, ty);
    lemma_mantissas_keep_order(x, y, den, 0, tx, ty);
    assert(x * pow10(0) == x) by (nonlinear_arith)
        requires
            pow10(0) == 1,
    ;
    lemma_rounding_bounds(x * pow10(0), den, tx, 0);
    lemma_mantissas_keep_order(x, y, den, px, tx, ty);
    lemma_pow10_positive((28 - px) as nat);
    lemma_rounding_bounds(x * pow10(px), den, tx, 0);
    lemma_pow10_positive(px);
    assert(x * pow10(px) >= 0) by (nonlinear_arith)
        requires
            x >= 0,
            pow10(px) > 0,
    ;
    if px <= py {
        // The smaller number is not rounded before the greater one.
        let next = if px < py {
            px + 1
        } else {
            px
        };
        lemma_fits_before(y, den, next, py, ty);
        lemma_mantissas_keep_order(x, y, den, next, tx, ty);
        lemma_pow10_positive(next);
        assert(x * pow10(next) >= 0) by (nonlinear_arith)
            requires
                x >= 0,
                pow10(next) > 0,
        ;
        lemma_rounding_bounds(x * pow10(next), den, tx, 0);
        assert(fits(mantissa_at(x, den, next, tx)));
        if px == py {
            let down = pow10((28 - px) as nat);
            assert(mx * down <= my * down) by (nonlinear_arith)
                requires
                    mx <= my,
                    down > 0,
            ;
        }
    } else {
        let down = pow10((28 - px) as nat);
        let step = pow10((px - py - 1) as nat);
        let rest = pow10((28 - py - 1) as nat);
        lemma_not_small(y, den, py, ty);
        lemma_pow10_adds((px - py - 1) as nat, (28 - px) as nat);
        lemma_pow10_positive((px - py - 1) as nat);
        lemma_pow10_positive((28 - py - 1) as nat);
        assert(pow10((28 - py) as nat) == 10 * rest);
        assert(mx * down <= max_mantissa() * (step * down)) by (nonlinear_arith)
            requires
                0 <= mx <= max_mantissa(),
                down > 0,
                step >= 1,
        ;
        assert(max_mantissa() * rest <= (10 * my) * rest) by (nonlinear_arith)
            requires
                max_mantissa() < 10 * my,
                rest > 0,
                rest == step * down,
        ;
        assert((10 * my) * rest == my * (10 * rest)) by (nonlinear_arith);
    }
}

/// Rounding keeps the order of numbers.
pub proof fn rounding_keeps_order(x: int, y: int, den: int, tx: Tie, ty: Tie)
    requires
        den > 0,
        x < y || (x == y && tx == ty),
        nearest(x, den, tx) is Some,
        nearest(y, den, ty) is Some,
    ensures
        nearest(x, den, tx)->0 <= nearest(y, den, ty)->0,
{
    if 0 <= x {
        lemma_order_above_zero(x, y, den, tx, ty);
    } else if y <= 0 {
        rounding_is_symmetric(x, den, tx);
        rounding_is_symmetric(y, den, ty);
        lemma_order_above_zero(-y, -x, den, mirrored(ty), mirrored(tx));
    } else {
        rounding_keeps_whole_bounds(x, den, 0, tx);
        rounding_keeps_whole_bounds(y, den, 0, ty);
    }
}

/// What lies between zero and a number in range is in range.
pub proof fn range_reaches_to_zero(x: int, y: int, den: int, tx: Tie, ty: Tie)
    requires
        den > 0,
        0 <= x < y || y < x <= 0 || (x == y && tx == ty),
        nearest(y, den, ty) is Some,
    ensures
        nearest(x, den, tx) is Some,
{
    if 0 <= x <= y {
        lemma_order_above_zero(x, y, den, tx, ty);
    } else {
        rounding_is_symmetric(x, den, tx);
        rounding_is_symmetric(y, den, ty);
        lemma_order_above_zero(-x, -y, den, mirrored(tx), mirrored(ty));
    }
}

/// The units in a tenth.
pub open spec fn tenth() -> int {
    1_000_000_000_000_000_000_000_000_000
}

/// Rounding a number that is not negative moves it by half a unit at most, and
/// by no more than one part in twice `10^27` where it is so great that it is
/// rounded to more than a unit.
pub proof fn rounding_moves_little(num: int, den: int, tie: Tie)
    requires
        den > 0,
        num >= 0,
        nearest(num, den, tie) is Some,
    ensures
        ({
            let v = nearest(num, den, tie)->0;
            &&& v >= 0
            &&& -(den * (v + tenth())) <= 2 * tenth() * (v * den - num * unit()) <= den * (v
                + tenth())
        }),
{
    let v = nearest(num, den, tie)->0;
    let p = lemma_place(num, den, 28, tie);
    let m = mantissa_at(num, den, p, tie);
    let up = pow10(p);
    let down = pow10((28 - p) as nat);
    lemma_pow10_positive(p);
    lemma_pow10_positive((28 - p) as nat);
    lemma_pow10_adds(p, (28 - p) as nat);
    lemma_pow10_28();
    rounding_keeps_whole_bounds(num, den, 0, tie);
    lemma_rounding_error(num * up, den, tie);
    let e = m * den - num * up;
    assert(v * den - num * unit() == e * down) by (nonlinear_arith)
        requires
            v == m * down,
            unit() == up * down,
            e == m * den - num * up,
    ;
    assert(-(den * down) <= 2 * (e * down) <= den * down) by (nonlinear_arith)
        requires
            -den <= 2 * e <= den,
            down > 0,
    ;
    if p < 28 {
        lemma_not_small(num, den, p, tie);
        assert(tenth() * down <= m * down) by (nonlinear_arith)
            requires
                tenth() <= m,
                down > 0,
        ;
    }
    assert(tenth() * down <= v + tenth());
    assert(tenth() * (den * down) <= den * (v + tenth())) by (nonlinear_arith)
        requires
            tenth() * down <= v + tenth(),
            den > 0,
    ;
    assert(2 * tenth() * (e * down) == tenth() * (2 * (e * down))) by (nonlinear_arith);
    assert(-(tenth() * (den * down)) <= tenth() * (2 * (e * down)) <= tenth() * (den * down))
        by (nonlinear_arith)
        requires
            -(den * down) <= 2 * (e * down) <= den * down,
            tenth() > 0,
    ;
}

/// A sum or difference that is not negative is rounded by half a unit at most,
/// and by no more than one part in twice `10^27` where it is greater.
pub proof fn sums_are_moved_little(x: int)
    requires
        x >= 0,
        nearest(x, unit(), Tie::Even) is Some,
    ensures
        ({
            let v = nearest(x, unit(), Tie::Even)->0;
            &&& v >= 0
            &&& -(v + tenth()) <= 2 * tenth() * (v - x) <= v + tenth()
        }),
{
    let v = nearest(x, unit(), Tie::Even)->0;
    rounding_moves_little(x, unit(), Tie::Even);
    let t = tenth();
    assert(-(v + t) <= 2 * t * (v - x) <= v + t) by (nonlinear_arith)
        requires
            -(unit() * (v + t)) <= 2 * t * (v * unit() - x * unit()) <= unit() * (v + t),
            unit() > 0,
    {
        assert(2 * t * (v * unit() - x * unit()) == unit() * (2 * t * (v - x)));
    }
}

/// A quotient between zero and one is off by less than six units.
pub proof fn shares_are_moved_little(x: Num, y: Num)
    requires
        0 <= x.units <= y.units,
        y.units > 0,
    ensures
        over(Some(x), Some(y)) is Some,
        ({
            let v = over(Some(x), Some(y))->0.units;
            &&& 0 <= v <= unit()
            &&& -(11 * y.units) <= 2 * (v * y.units - x.units * unit()) <= 11 * y.units
        }),
{
    share_lies_within_one(x, y);
    let (a, b) = (x.units, y.units);
    let v = over(Some(x), Some(y))->0.units;
    rounding_moves_little(a, b, quotient_tie(x, y));
    let t = tenth();
    let e = v * b - a * unit();
    assert(b * (v + t) <= (11 * b) * t) by (nonlinear_arith)
        requires
            v <= 10 * t,
            b > 0,
    ;
    assert(-(11 * b) <= 2 * e <= 11 * b) by (nonlinear_arith)
        requires
            -((11 * b) * t) <= 2 * t * e <= (11 * b) * t,
            t > 0,
    ;
}

/// Whether a number of units is a decimal: a mantissa at one of the places.
pub open spec fn is_decimal(v: int) -> bool {
    exists|m: int, at: nat|
        at <= 28 && #[trigger] fits(m) && v == m * #[trigger] pow10((28 - at) as nat)
}

/// Every result is a decimal.
pub proof fn result_is_a_decimal(num: int, den: int, tie: Tie)
    requires
        nearest(num, den, tie) is Some,
    ensures
        is_decimal(nearest(num, den, tie)->0),
{
    let (n, d) = if den > 0 {
        (num, den)
    } else {
        (-num, -den)
    };
    let p = lemma_place(n, d, 28, tie);
    assert(fits(mantissa_at(n, d, p, tie)));
    assert(nearest(num, den, tie)->0 == mantissa_at(n, d, p, tie) * pow10((28 - p) as nat));
}

/// Where the exact result is a decimal, it is the result.
pub proof fn exact_decimal_is_kept(num: int, den: int, v: int, tie: Tie)
    requires
        den != 0,
        is_decimal(v),
        num * unit() == v * den,
    ensures
        nearest(num, den, tie) == Some(v),
{
    let (m, at) = choose|m: int, at: nat|
        at <= 28 && #[trigger] fits(m) && v == m * #[trigger] pow10((28 - at) as nat);
    let (n, d) = if den > 0 {
        (num, den)
    } else {
        (-num, -den)
    };
    let up = pow10(at);
    let down = pow10((28 - at) as nat);
    lemma_pow10_adds(at, (28 - at) as nat);
    lemma_pow10_28();
    lemma_pow10_positive((28 - at) as nat);
    assert(n * unit() == v * d) by (nonlinear_arith)
        requires
            num * unit() == v * den,
            (n == num && d == den) || (n == -num && d == -den),
    ;
    assert(n * up == m * d) by (nonlinear_arith)
        requires
            n * unit() == v * d,
            unit() == up * down,
            v == m * down,
            down > 0,
    {
        assert((n * up) * down == (m * d) * down);
    }
    exact_number_is_kept(n, d, m, at, tie);
}

/// Sums, differences and products that are decimals are exact.
pub proof fn exact_operations_are_kept(a: int, b: int, v: int)
    requires
        is_decimal(v),
    ensures
        a + b == v ==> add_units(a, b) == Some(v),
        a - b == v ==> sub_units(a, b) == Some(v),
        a * b == v * unit() ==> mul_units(a, b) == Some(v),
{
    if a + b == v {
        exact_decimal_is_kept(a + b, unit(), v, Tie::Even);
    }
    if a - b == v {
        exact_decimal_is_kept(a - b, unit(), v, Tie::Even);
    }
    if a * b == v * unit() {
        assert((a * b) * unit() == v * (unit() * unit())) by (nonlinear_arith)
            requires
                a * b == v * unit(),
        ;
        exact_decimal_is_kept(a * b, unit() * unit(), v, Tie::Even);
    }
}

/// A quotient that is a decimal is exact.
pub proof fn exact_quotient_is_kept(a: Num, b: Num, v: int)
    requires
        is_decimal(v),
        b.units != 0,
        a.units * unit() == v * b.units,
    ensures
        over(Some(a), Some(b)) is Some,
        over(Some(a), Some(b))->0.units == v,
{
    exact_decimal_is_kept(a.units, b.units, v, quotient_tie(a, b));
}

/// A difference has the sign of the comparison: it is zero only between equal
/// numbers.
pub proof fn difference_has_the_sign_of_the_order(a: int, b: int)
    requires
        sub_units(a, b) is Some,
    ensures
        sub_units(a, b)->0 > 0 <==> a > b,
        sub_units(a, b)->0 == 0 <==> a == b,
{
    let num = a - b;
    let p = lemma_place(num, unit(), 28, Tie::Even);
    let m = mantissa_at(num, unit(), p, Tie::Even);
    let down = pow10((28 - p) as nat);
    lemma_pow10_positive((28 - p) as nat);
    lemma_pow10_28();
    if p == 28 {
        lemma_rounding_bounds(num * pow10(28), unit(), Tie::Even, num);
    } else {
        lemma_not_small(num, unit(), p, Tie::Even);
    }
    assert(m > 0 ==> m * down > 0) by (nonlinear_arith)
        requires
            down > 0,
    ;
    assert(m < 0 ==> m * down < 0) by (nonlinear_arith)
        requires
            down > 0,
    ;
    assert(m == 0 ==> m * down == 0) by (nonlinear_arith);
}

/// Differences keep the order: the wider of two distances is not rounded below
/// the narrower one, and is out of range first.
pub proof fn differences_keep_order(a: int, b: int, c: int, d: int)
    requires
        0 <= a - b <= c - d,
        sub_units(c, d) is Some,
    ensures
        sub_units(a, b) is Some,
        0 <= sub_units(a, b)->0 <= sub_units(c, d)->0,
{
    lemma_order_above_zero(a - b, c - d, unit(), Tie::Even, Tie::Even);
    rounding_keeps_whole_bounds(a - b, unit(), 0, Tie::Even);
}

/// The quotient of a number and a number at least as great in size is in range,
/// and lies between minus one and one; it is not negative where the first number
/// is not.
pub proof fn share_lies_within_one(x: Num, y: Num)
    requires
        y.units > 0,
        -y.units <= x.units <= y.units,
    ensures
        over(Some(x), Some(y)) is Some,
        -unit() <= over(Some(x), Some(y))->0.units <= unit(),
        x.units >= 0 ==> over(Some(x), Some(y))->0.units >= 0,
{
    let (a, b) = (x.units, y.units);
    let tie = quotient_tie(x, y);
    assert(max_mantissa() * b >= b) by (nonlinear_arith)
        requires
            b > 0,
            max_mantissa() >= 1,
    ;
    assert(-max_mantissa() * b <= -b) by (nonlinear_arith)
        requires
            b > 0,
            max_mantissa() >= 1,
    ;
    range_is_that_of_the_mantissa(a, b, tie);
    rounding_keeps_whole_bounds(a, b, 1, tie);
    rounding_keeps_whole_bounds(a, b, -1, tie);
    rounding_keeps_whole_bounds(a, b, 0, tie);
}

/// Zero, one and minus one are decimals.
pub proof fn zero_and_one_are_decimals()
    ensures
        is_decimal(0),
        is_decimal(unit()),
        is_decimal(-unit()),
{
    lemma_pow10_28();
    assert(fits(0) && 0 == 0 * pow10((28 - 0nat) as nat));
    assert(fits(1) && unit() == 1 * pow10((28 - 0nat) as nat));
    assert(fits(-1) && -unit() == (-1) * pow10((28 - 0nat) as nat));
}

/// A number over itself is one, over its negative minus one, and zero over it is
/// zero.
pub proof fn number_over_itself_is_one(a: Num, b: Num)
    requires
        b.units != 0,
    ensures
        a.units == b.units ==> over(Some(a), Some(b)) is Some && over(Some(a), Some(b))->0.units
            == unit(),
        a.units == -b.units ==> over(Some(a), Some(b)) is Some && over(Some(a), Some(b))->0.units
            == -unit(),
        a.units == 0 ==> over(Some(a), Some(b)) is Some && over(Some(a), Some(b))->0.units == 0,
{
    let v = b.units;
    zero_and_one_are_decimals();
    assert(v * unit() == unit() * v) by (nonlinear_arith);
    assert((-v) * unit() == (-unit()) * v) by (nonlinear_arith);
    if a.units == v {
        exact_quotient_is_kept(a, b, unit());
    }
    if a.units == -v {
        exact_quotient_is_kept(a, b, -unit());
    }
    if a.units == 0 {
        exact_quotient_is_kept(a, b, 0);
    }
}

/// Where two numbers are bounded by whole numbers whose sum is a mantissa, their
/// sum and difference are in range and bounded by that sum.
pub proof fn bounded_sums_are_in_range(a: int, b: int, p: int, q: int)
    requires
        -p * unit() <= a <= p * unit(),
        -q * unit() <= b <= q * unit(),
        p + q <= max_mantissa(),
    ensures
        add_units(a, b) is Some,
        -(p + q) * unit() <= add_units(a, b)->0 <= (p + q) * unit(),
        sub_units(a, b) is Some,
        -(p + q) * unit() <= sub_units(a, b)->0 <= (p + q) * unit(),
{
    range_is_that_of_the_mantissa(a + b, unit(), Tie::Even);
    rounding_keeps_whole_bounds(a + b, unit(), p + q, Tie::Even);
    rounding_keeps_whole_bounds(a + b, unit(), -(p + q), Tie::Even);
    range_is_that_of_the_mantissa(a - b, unit(), Tie::Even);
    rounding_keeps_whole_bounds(a - b, unit(), p + q, Tie::Even);
    rounding_keeps_whole_bounds(a - b, unit(), -(p + q), Tie::Even);
}

/// Where two numbers are bounded by whole numbers whose product is a mantissa,
/// their product is in range and bounded by that product.
pub proof fn bounded_products_are_in_range(a: int, b: int, p: int, q: int)
    requires
        p >= 0,
        q >= 0,
        -p * unit() <= a <= p * unit(),
        -q * unit() <= b <= q * unit(),
        p * q <= max_mantissa(),
    ensures
        mul_units(a, b) is Some,
        -(p * q) * unit() <= mul_units(a, b)->0 <= (p * q) * unit(),
{
    let den = unit() * unit();
    let (m, n) = (p * unit(), q * unit());
    assert(-(m * n) <= a * b <= m * n) by (nonlinear_arith)
        requires
            -m <= a <= m,
            -n <= b <= n,
    ;
    assert(m * n == (p * q) * den) by (nonlinear_arith)
        requires
            m == p * unit(),
            n == q * unit(),
            den == unit() * unit(),
    ;
    assert((p * q) * den <= max_mantissa() * den) by (nonlinear_arith)
        requires
            p * q <= max_mantissa(),
            den > 0,
    ;
    assert(-(p * q) * den == -((p * q) * den)) by (nonlinear_arith);
    assert(-max_mantissa() * den == -(max_mantissa() * den)) by (nonlinear_arith);
    range_is_that_of_the_mantissa(a * b, den, Tie::Even);
    rounding_keeps_whole_bounds(a * b, den, p * q, Tie::Even);
    rounding_keeps_whole_bounds(a * b, den, -(p * q), Tie::Even);
}

/// A number over a whole number above zero is in range, and no greater in size
/// than a whole number that bounds it.
pub proof fn quotients_by_counts_are_in_range(x: Num, n: int, p: int)
    requires
        n >= 1,
        0 <= p <= max_mantissa(),
        -(p * n) * unit() <= x.units <= (p * n) * unit(),
    ensures
        over(Some(x), whole(n)) is Some,
        -p * unit() <= over(Some(x), whole(n))->0.units <= p * unit(),
{
    let a = x.units;
    let den = n * unit();
    let tie = quotient_tie(x, whole(n)->0);
    assert((p * n) * unit() == p * den && -(p * n) * unit() == -p * den) by (nonlinear_arith)
        requires
            den == n * unit(),
    ;
    assert(p * den <= max_mantissa() * den && -max_mantissa() * den <= -p * den)
        by (nonlinear_arith)
        requires
            0 <= p <= max_mantissa(),
            den > 0,
    ;
    range_is_that_of_the_mantissa(a, den, tie);
    rounding_keeps_whole_bounds(a, den, p, tie);
    rounding_keeps_whole_bounds(a, den, -p, tie);
}

/// The greater of two numbers is one of them and not less than either, the smaller one
/// of them and not more than either; the first is taken of equal ones. The magnitude of
/// a number is the number or its opposite, and not negative.
pub proof fn numbers_are_picked_by_size(a: Num, b: Num)
    ensures
        larger(Some(a), Some(b)) == (if b.units > a.units {
            Some(b)
        } else {
            Some(a)
        }),
        smaller(Some(a), Some(b)) == (if b.units < a.units {
            Some(b)
        } else {
            Some(a)
        }),
        magnitude(Some(a)) is Some,
        magnitude(Some(a))->0.units >= 0,
        magnitude(Some(a))->0.units == a.units || magnitude(Some(a))->0.units == -a.units,
        magnitude(Some(a))->0.places == a.places,
        is_nought(Some(a)) <==> a.units == 0,
        b.units == 0 ==> over_or(Some(a), Some(b), Some(a)) == Some(a),
        b.units != 0 ==> over_or(Some(a), Some(b), Some(a)) == over(Some(a), Some(b)),
        nought().units == 0,
{
}

/// Whole numbers and hundredths are as many ones and hundredths of one.
pub proof fn whole_numbers_are_so_many_ones(n: int)
    ensures
        amounts_to(whole(n), n * unit()),
        hundredths(n) is Some,
        100 * hundredths(n)->0.units == n * unit(),
        unit() == pow10(28),
{
    lemma_pow10_28();
}

/// A result that is owed is there and has the value, and one that is not owed is not
/// there.
pub proof fn results_are_owed_exactly_where_they_can_be(
    r: Option<Decimal>,
    value: Option<Num>,
    f: Option<Fraction>,
    c: Option<usize>,
    num: int,
    den: int,
)
    ensures
        yields(r, true, value) <==> r is Some && Some(r->0.num()) == value,
        yields(r, false, value) <==> r is None,
        fraction_of(f, true, num, den) <==> f is Some && f->0.num == num && f->0.den == den && den
            > 0,
        fraction_of(f, false, num, den) <==> f is None,
        count_of(c, true, num) <==> c is Some && c->0 == num,
        count_of(c, false, num) <==> c is None,
{
}

/// Decimals are equal where their amounts are, whatever their places, and ordered by
/// their amounts.
pub proof fn decimals_are_ordered_by_their_amounts(a: Decimal, b: Decimal)
    ensures
        a.num().units == a@,
        a.val() == Some(a.num()),
        a.eq_spec(&b) <==> a@ == b@,
        a.partial_cmp_spec(&b) == Some(Ordering::Less) <==> a@ < b@,
        a.partial_cmp_spec(&b) == Some(Ordering::Equal) <==> a@ == b@,
        a.partial_cmp_spec(&b) == Some(Ordering::Greater) <==> a@ > b@,
{
}

/// Rounding takes the nearest integer; midway between two it takes the even one, the
/// upper or the lower one, as the tie says.
pub proof fn nearest_integer_is_taken(num: int, den: int, tie: Tie)
    requires
        den > 0,
    ensures
        ({
            let n = nearest_integer(num, den, tie);
            let moved = 2 * (n * den - num);
            &&& -den <= moved <= den
            &&& moved == den || moved == -den ==> match tie {
                Tie::Even => n % 2 == 0,
                Tie::Up => moved == den,
                Tie::Down => moved == -den,
            }
        }),
{
    lemma_rounding_error(num, den, tie);
    let q = num / den;
    lemma_fundamental_div_mod(num, den);
    lemma_mod_bound(num, den);
    assert(den * q == q * den) by (nonlinear_arith);
    assert((q + 1) * den == q * den + den) by (nonlinear_arith);
}

/// A sum or a difference of numbers that are not zero is written with the places of the
/// operand that has more of them, and a product with those of both factors, where it
/// has a mantissa with so many places.
pub proof fn results_keep_the_places_of_the_operands(a: Num, b: Num, m: int, p: nat)
    requires
        a.units != 0,
        b.units != 0,
        p <= 28,
        fits(m),
    ensures
        (p == a.places || p == b.places) && p >= a.places && p >= b.places && a.units + b.units
            == m * pow10((28 - p) as nat) ==> plus(Some(a), Some(b)) == Some(
            Num { units: a.units + b.units, places: p },
        ),
        (p == a.places || p == b.places) && p >= a.places && p >= b.places && a.units - b.units
            == m * pow10((28 - p) as nat) ==> minus(Some(a), Some(b)) == Some(
            Num { units: a.units - b.units, places: p },
        ),
        p == a.places + b.places && a.units * b.units == m * pow10((28 - p) as nat) * unit()
            ==> amounts_to(times(Some(a), Some(b)), m * pow10((28 - p) as nat)) && (times(
            Some(a),
            Some(b),
        )->0.places == p),
{
    let c = pow10((28 - p) as nat);
    lemma_pow10_28();
    lemma_pow10_positive(p);
    lemma_pow10_adds((28 - p) as nat, p);
    let (sum, less, product) = (a.units + b.units, a.units - b.units, a.units * b.units);
    if sum == m * c {
        assert(sum * pow10(p) == m * unit()) by (nonlinear_arith)
            requires
                sum == m * c,
                c * pow10(p) == unit(),
        ;
        exact_number_is_kept(sum, unit(), m, p, Tie::Even);
        lemma_exact_place(sum, unit(), m, p);
    }
    if less == m * c {
        assert(less * pow10(p) == m * unit()) by (nonlinear_arith)
            requires
                less == m * c,
                c * pow10(p) == unit(),
        ;
        exact_number_is_kept(less, unit(), m, p, Tie::Even);
        lemma_exact_place(less, unit(), m, p);
    }
    if product == m * c * unit() {
        assert(product * pow10(p) == m * (unit() * unit())) by (nonlinear_arith)
            requires
                product == m * c * unit(),
                c * pow10(p) == unit(),
        ;
        exact_number_is_kept(product, unit() * unit(), m, p, Tie::Even);
        lemma_exact_place(product, unit() * unit(), m, p);
    }
}

proof fn lemma_exact_place(num: int, den: int, m: int, p: nat)
    requires
        den > 0,
        fits(m),
        num * pow10(p) == m * den,
    ensures
        fitting_place(num, den, p) == p,
{
    lemma_fundamental_div_mod_converse(num * pow10(p), den, m, 0);
}

} // verus!
