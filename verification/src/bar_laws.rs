//! Laws of one bar and of two.
//!
//! They hold of every valid bar, one whose high is the highest and whose low is
//! the lowest of its prices, as the aggregator makes them.

use crate::bar::OhlcvBar;
use crate::decimal::{
    amounts_to, is_nought, magnitude, max_mantissa, minus, nearest, over, plus, times, unit, whole,
    Num, Tie,
};
use crate::decimal_laws::{
    bounded_sums_are_in_range, difference_has_the_sign_of_the_order, differences_keep_order,
    exact_decimal_is_kept, exact_operations_are_kept, exact_quotient_is_kept, is_decimal,
    number_over_itself_is_one, quotients_by_counts_are_in_range, result_is_a_decimal,
    rounding_is_symmetric, share_lies_within_one, shares_are_moved_little, sums_are_moved_little,
    tenth, zero_and_one_are_decimals,
};
use vstd::prelude::*;

verus! {

/// The size of a difference does not depend on the order of the two numbers.
pub proof fn distance_is_symmetric(a: Num, b: Num)
    ensures
        minus(Some(a), Some(b)) is Some == (minus(Some(b), Some(a)) is Some),
        magnitude(minus(Some(a), Some(b)))->0.units == magnitude(minus(Some(b), Some(a)))->0.units,
{
    rounding_is_symmetric(a.units - b.units, unit(), Tie::Even);
}

/// The body and the wicks of a valid bar lie within its range: none of them is
/// negative or longer than the range, and they are in range where it is.
pub proof fn parts_lie_within_the_range(b: OhlcvBar)
    requires
        b.is_valid(),
        b.range_val() is Some,
    ensures
        b.body_val() is Some,
        b.wick_upper_val() is Some,
        b.wick_lower_val() is Some,
        0 <= b.body_val()->0.units <= b.range_val()->0.units,
        0 <= b.wick_upper_val()->0.units <= b.range_val()->0.units,
        0 <= b.wick_lower_val()->0.units <= b.range_val()->0.units,
{
    let top = b.body_high_val()->0.units;
    let bottom = b.body_low_val()->0.units;
    differences_keep_order(b.high@, top, b.high@, b.low@);
    differences_keep_order(bottom, b.low@, b.high@, b.low@);
    differences_keep_order(top, bottom, b.high@, b.low@);
    distance_is_symmetric(b.open.num(), b.close.num());
}

/// A valid bar has an upper wick exactly where its high is above its body, and a
/// lower wick exactly where its low is below it.
pub proof fn wicks_reach_beyond_the_body(b: OhlcvBar)
    requires
        b.is_valid(),
        b.range_val() is Some,
    ensures
        b.wick_upper_val()->0.units > 0 <==> b.high@ > b.open@ && b.high@ > b.close@,
        b.wick_lower_val()->0.units > 0 <==> b.low@ < b.open@ && b.low@ < b.close@,
        is_nought(b.wick_upper_val()) <==> b.high@ == b.body_high_val()->0.units,
        is_nought(b.wick_lower_val()) <==> b.low@ == b.body_low_val()->0.units,
{
    parts_lie_within_the_range(b);
    difference_has_the_sign_of_the_order(b.high@, b.body_high_val()->0.units);
    difference_has_the_sign_of_the_order(b.body_low_val()->0.units, b.low@);
}

/// The range of a valid bar is zero exactly where its four prices are equal.
pub proof fn flat_bar_has_one_price(b: OhlcvBar)
    requires
        b.is_valid(),
        b.range_val() is Some,
    ensures
        is_nought(b.range_val()) <==> b.open@ == b.high@ && b.low@ == b.high@ && b.close@
            == b.high@,
        b.range_val()->0.units >= 0,
{
    difference_has_the_sign_of_the_order(b.high@, b.low@);
}

/// The close location value of a valid bar lies between minus one and one. It is
/// one where the bar closes at the high, minus one where it closes at the low,
/// and zero where it closes as far from the one as from the other.
pub proof fn close_location_lies_within_one(b: OhlcvBar)
    requires
        b.is_valid(),
        b.range_val() is Some,
        !is_nought(b.range_val()),
    ensures
        b.close_location_val() is Some,
        -unit() <= b.close_location_val()->0.units <= unit(),
        b.close@ == b.high@ ==> amounts_to(b.close_location_val(), unit()),
        b.close@ == b.low@ ==> amounts_to(b.close_location_val(), -unit()),
        b.close@ - b.low@ == b.high@ - b.close@ ==> is_nought(b.close_location_val()),
{
    let range = b.range_val()->0.units;
    flat_bar_has_one_price(b);
    differences_keep_order(b.close@, b.low@, b.high@, b.low@);
    differences_keep_order(b.high@, b.close@, b.high@, b.low@);
    let above = minus(b.close.val(), b.low.val())->0.units;
    let below = minus(b.high.val(), b.close.val())->0.units;
    // The range is a decimal, so no difference within it is rounded beyond it.
    result_is_a_decimal(b.high@ - b.low@, unit(), Tie::Even);
    exact_decimal_is_kept(range, unit(), range, Tie::Even);
    let num = minus(minus(b.close.val(), b.low.val()), minus(b.high.val(), b.close.val()));
    assert(num is Some && -range <= num->0.units <= range) by {
        rounding_is_symmetric(range, unit(), Tie::Even);
        if above >= below {
            differences_keep_order(above, below, range, 0);
        } else {
            differences_keep_order(below, above, range, 0);
            rounding_is_symmetric(below - above, unit(), Tie::Even);
        }
    }
    share_lies_within_one(num->0, b.range_val()->0);
    difference_has_the_sign_of_the_order(b.high@, b.close@);
    difference_has_the_sign_of_the_order(b.close@, b.low@);
    number_over_itself_is_one(num->0, b.range_val()->0);
    if b.close@ == b.high@ {
        assert(num->0.units == range);
    }
    if b.close@ == b.low@ {
        rounding_is_symmetric(range, unit(), Tie::Even);
        assert(num->0.units == -range);
    }
    if b.close@ - b.low@ == b.high@ - b.close@ {
        difference_has_the_sign_of_the_order(above, below);
    }
}

/// The body takes a share of the range of a valid bar between zero and one: zero
/// where the bar closes where it opens, one where there are no wicks.
pub proof fn body_takes_a_share_of_the_range(b: OhlcvBar)
    requires
        b.is_valid(),
        b.range_val() is Some,
        !is_nought(b.range_val()),
    ensures
        over(b.body_val(), b.range_val()) is Some,
        0 <= over(b.body_val(), b.range_val())->0.units <= unit(),
        b.open@ == b.close@ ==> is_nought(over(b.body_val(), b.range_val())),
        is_nought(b.wick_upper_val()) && is_nought(b.wick_lower_val()) ==> amounts_to(over(
            b.body_val(),
            b.range_val(),
        ), unit()),
{
    flat_bar_has_one_price(b);
    parts_lie_within_the_range(b);
    wicks_reach_beyond_the_body(b);
    share_lies_within_one(b.body_val()->0, b.range_val()->0);
    number_over_itself_is_one(b.body_val()->0, b.range_val()->0);
    difference_has_the_sign_of_the_order(b.close@, b.open@);
    distance_is_symmetric(b.open.num(), b.close.num());
}

/// Each wick takes a share of the range of a valid bar between zero and one.
pub proof fn wicks_take_a_share_of_the_range(b: OhlcvBar)
    requires
        b.is_valid(),
        b.range_val() is Some,
        !is_nought(b.range_val()),
    ensures
        over(b.wick_upper_val(), b.range_val()) is Some,
        over(b.wick_lower_val(), b.range_val()) is Some,
        0 <= over(b.wick_upper_val(), b.range_val())->0.units <= unit(),
        0 <= over(b.wick_lower_val(), b.range_val())->0.units <= unit(),
{
    flat_bar_has_one_price(b);
    parts_lie_within_the_range(b);
    share_lies_within_one(b.wick_upper_val()->0, b.range_val()->0);
    share_lies_within_one(b.wick_lower_val()->0, b.range_val()->0);
}

/// A difference within a range is off by less than a part of the range in
/// `10^27`.
pub(crate) proof fn lemma_difference_moved(x: int, v: int, range: int)
    requires
        0 <= x,
        nearest(x, unit(), Tie::Even) == Some(v),
        v <= range,
    ensures
        -range <= tenth() * (v - x) <= range,
        range < tenth() ==> v == x,
{
    sums_are_moved_little(x);
    let e = v - x;
    if range < tenth() {
        assert(e == 0) by (nonlinear_arith)
            requires
                -(2 * tenth()) < 2 * tenth() * e < 2 * tenth(),
        ;
    } else {
        assert(-range <= tenth() * e <= range) by (nonlinear_arith)
            requires
                -(2 * range) <= 2 * tenth() * e <= 2 * range,
        ;
    }
}

/// The wicks and the body of a valid bar take up its range: their shares of it
/// add up to one, and what the body leaves of it is the share of the wicks, up to
/// the rounding of the last decimal places.
pub proof fn parts_take_up_the_range(b: OhlcvBar)
    requires
        b.is_valid(),
        b.range_val() is Some,
        !is_nought(b.range_val()),
    ensures
        ({
            let upper = over(b.wick_upper_val(), b.range_val());
            let lower = over(b.wick_lower_val(), b.range_val());
            let body = over(b.body_val(), b.range_val());
            let shadow = over(minus(b.range_val(), b.body_val()), b.range_val());
            &&& upper is Some && 0 <= upper->0.units <= unit()
            &&& lower is Some && 0 <= lower->0.units <= unit()
            &&& body is Some && 0 <= body->0.units <= unit()
            &&& shadow is Some && 0 <= shadow->0.units <= unit()
            &&& -70 <= upper->0.units + lower->0.units + body->0.units - unit() <= 70
            &&& -70 <= upper->0.units + lower->0.units - shadow->0.units <= 70
        }),
{
    let r = b.range_val()->0.units;
    let top = b.body_high_val()->0.units;
    let bottom = b.body_low_val()->0.units;
    flat_bar_has_one_price(b);
    parts_lie_within_the_range(b);
    let u = b.wick_upper_val()->0.units;
    let l = b.wick_lower_val()->0.units;
    let m = b.body_val()->0.units;
    distance_is_symmetric(b.open.num(), b.close.num());
    differences_keep_order(top, bottom, top, bottom);
    lemma_difference_moved(b.high@ - b.low@, r, r);
    lemma_difference_moved(b.high@ - top, u, r);
    lemma_difference_moved(bottom - b.low@, l, r);
    lemma_difference_moved(top - bottom, m, r);
    result_is_a_decimal(b.high@ - b.low@, unit(), Tie::Even);
    exact_decimal_is_kept(r, unit(), r, Tie::Even);
    differences_keep_order(r, m, r, 0);
    let s = minus(b.range_val(), b.body_val())->0.units;
    lemma_difference_moved(r - m, s, r);
    shares_are_moved_little(b.wick_upper_val()->0, b.range_val()->0);
    shares_are_moved_little(b.wick_lower_val()->0, b.range_val()->0);
    shares_are_moved_little(b.body_val()->0, b.range_val()->0);
    shares_are_moved_little(minus(b.range_val(), b.body_val())->0, b.range_val()->0);
    let su = over(b.wick_upper_val(), b.range_val())->0.units;
    let sl = over(b.wick_lower_val(), b.range_val())->0.units;
    let sm = over(b.body_val(), b.range_val())->0.units;
    let ss = over(minus(b.range_val(), b.body_val()), b.range_val())->0.units;
    let e = u + l + m - r;
    let d = u + l - s;
    assert(-(4 * r) <= tenth() * e <= 4 * r) by (nonlinear_arith)
        requires
            -r <= tenth() * (u - (b.high@ - top)) <= r,
            -r <= tenth() * (l - (bottom - b.low@)) <= r,
            -r <= tenth() * (m - (top - bottom)) <= r,
            -r <= tenth() * (r - (b.high@ - b.low@)) <= r,
            e == u + l + m - r,
    ;
    assert(-(5 * r) <= tenth() * d <= 5 * r) by (nonlinear_arith)
        requires
            -(4 * r) <= tenth() * e <= 4 * r,
            -r <= tenth() * (s - (r - m)) <= r,
            d == u + l - s,
            e == u + l + m - r,
    ;
    lemma_quotient_bound(
        su + sl + sm - unit(),
        r,
        (su * r - u * unit()) + (sl * r - l * unit()) + (sm * r - m * unit()),
        e,
    );
    assert((su + sl + sm - unit()) * r == (su * r - u * unit()) + (sl * r - l * unit()) + (sm * r
        - m * unit()) + e * unit()) by (nonlinear_arith)
        requires
            e == u + l + m - r,
    ;
    lemma_quotient_bound(
        su + sl - ss,
        r,
        (su * r - u * unit()) + (sl * r - l * unit()) - (ss * r - s * unit()),
        d,
    );
    assert((su + sl - ss) * r == (su * r - u * unit()) + (sl * r - l * unit()) - (ss * r - s
        * unit()) + d * unit()) by (nonlinear_arith)
        requires
            d == u + l - s,
    ;
}

proof fn lemma_quotient_bound(q: int, r: int, a: int, e: int)
    requires
        r > 0,
        -(33 * r) <= 2 * a <= 33 * r,
        -(5 * r) <= tenth() * e <= 5 * r,
    ensures
        q * r == a + e * unit() ==> -70 <= q <= 70,
{
    assert(e * unit() == 10 * (tenth() * e)) by (nonlinear_arith);
    if q * r == a + e * unit() {
        assert(-70 <= q <= 70) by (nonlinear_arith)
            requires
                r > 0,
                -(67 * r) <= q * r <= 67 * r,
        ;
    }
}

/// The close of a valid bar has a position in its range between zero and one:
/// zero at the low, one at the high.
pub proof fn close_has_a_position_in_the_range(b: OhlcvBar)
    requires
        b.is_valid(),
        b.range_val() is Some,
        !is_nought(b.range_val()),
    ensures
        ({
            let position = over(minus(b.close.val(), b.low.val()), b.range_val());
            &&& position is Some
            &&& 0 <= position->0.units <= unit()
            &&& b.close@ == b.low@ ==> is_nought(position)
            &&& b.close@ == b.high@ ==> amounts_to(position, unit())
        }),
{
    flat_bar_has_one_price(b);
    differences_keep_order(b.close@, b.low@, b.high@, b.low@);
    difference_has_the_sign_of_the_order(b.close@, b.low@);
    share_lies_within_one(minus(b.close.val(), b.low.val())->0, b.range_val()->0);
    number_over_itself_is_one(minus(b.close.val(), b.low.val())->0, b.range_val()->0);
}

/// The true range of a bar is at least its range, and equal to it for a valid
/// bar whose range holds the close before.
pub proof fn true_range_covers_the_range(b: OhlcvBar, prev_close: Num)
    requires
        b.true_range_val(prev_close) is Some,
    ensures
        b.true_range_val(prev_close)->0.units >= b.range_val()->0.units,
        b.low@ <= prev_close.units <= b.high@ ==> b.true_range_val(prev_close) == b.range_val(),
{
    if b.low@ <= prev_close.units <= b.high@ {
        differences_keep_order(b.high@, prev_close.units, b.high@, b.low@);
        differences_keep_order(prev_close.units, b.low@, b.high@, b.low@);
        distance_is_symmetric(prev_close, b.low.num());
    }
}

/// The price at a fraction of the range is the low at zero, and below it. Where
/// the range needs no rounding it is the high at one, and above it.
pub proof fn interpolation_ends_at_low_and_high(b: OhlcvBar, pct: Num)
    requires
        b.range_val() is Some,
        is_decimal(b.low@),
        is_decimal(b.high@),
    ensures
        pct.units <= 0 ==> amounts_to(b.price_at_val(pct), b.low@),
        pct.units >= unit() && amounts_to(b.range_val(), b.high@ - b.low@) ==> amounts_to(
            b.price_at_val(pct),
            b.high@,
        ),
{
    let range = b.range_val()->0.units;
    result_is_a_decimal(b.high@ - b.low@, unit(), Tie::Even);
    if pct.units <= 0 {
        zero_and_one_are_decimals();
        exact_operations_are_kept(range, 0, 0);
        exact_operations_are_kept(b.low@, 0, b.low@);
    }
    if pct.units >= unit() {
        exact_operations_are_kept(range, unit(), range);
        exact_operations_are_kept(b.low@, b.high@ - b.low@, b.high@);
    }
}

/// A bar with an upward body is bullish, one with a downward body bearish, and
/// the sign of its price change tells them apart.
pub proof fn price_change_has_the_sign_of_the_body(b: OhlcvBar)
    requires
        b.price_change_val() is Some,
    ensures
        b.price_change_val()->0.units > 0 <==> b.close@ > b.open@,
        b.price_change_val()->0.units < 0 <==> b.close@ < b.open@,
        b.price_change_val()->0.units == 0 <==> b.close@ == b.open@,
        b.body_val()->0.units >= 0,
{
    difference_has_the_sign_of_the_order(b.close@, b.open@);
}

/// The values of a bar whose prices are bounded by a whole number that is small
/// beside a mantissa are in range, with a bound of their own.
pub proof fn bounded_bar_is_in_range(b: OhlcvBar, p: int)
    requires
        0 <= p,
        3 * p <= max_mantissa(),
        -p * unit() <= b.open@ <= p * unit(),
        -p * unit() <= b.high@ <= p * unit(),
        -p * unit() <= b.low@ <= p * unit(),
        -p * unit() <= b.close@ <= p * unit(),
    ensures
        b.range_val() is Some,
        b.price_change_val() is Some,
        b.body_val() is Some,
        b.wick_upper_val() is Some,
        b.wick_lower_val() is Some,
        b.median_price_val() is Some,
        b.typical_price_val() is Some,
        -(2 * p) * unit() <= b.range_val()->0.units <= (2 * p) * unit(),
        0 <= b.body_val()->0.units <= (2 * p) * unit(),
        -p * unit() <= b.median_price_val()->0.units <= p * unit(),
        -p * unit() <= b.typical_price_val()->0.units <= p * unit(),
{
    bounded_sums_are_in_range(b.high@, b.low@, p, p);
    bounded_sums_are_in_range(b.close@, b.open@, p, p);
    bounded_sums_are_in_range(b.high@, b.body_high_val()->0.units, p, p);
    bounded_sums_are_in_range(b.body_low_val()->0.units, b.low@, p, p);
    let middle = plus(b.high.val(), b.low.val());
    quotients_by_counts_are_in_range(middle->0, 2, p);
    bounded_sums_are_in_range(middle->0.units, b.close@, 2 * p, p);
    quotients_by_counts_are_in_range(plus(middle, b.close.val())->0, 3, p);
}

/// The true range is the greatest of the range and of the distances from the close
/// before to the high and to the low.
pub proof fn true_range_is_the_greatest_distance(b: OhlcvBar, prev_close: Num)
    requires
        b.true_range_val(prev_close) is Some,
    ensures
        ({
            let range = minus(b.high.val(), b.low.val());
            let up = magnitude(minus(b.high.val(), Some(prev_close)));
            let down = magnitude(minus(b.low.val(), Some(prev_close)));
            let t = b.true_range_val(prev_close);
            &&& range is Some && up is Some && down is Some
            &&& t == range || t == up || t == down
            &&& t->0.units >= range->0.units
            &&& t->0.units >= up->0.units
            &&& t->0.units >= down->0.units
        }),
{
}

/// A price at a share of the range lies so far above the low; shares below zero and
/// above one count as these.
pub proof fn price_at_a_share_lies_above_the_low(b: OhlcvBar, pct: Num)
    ensures
        ({
            let range = minus(b.high.val(), b.low.val());
            &&& 0 <= pct.units <= unit() ==> b.price_at_val(pct) == plus(
                b.low.val(),
                times(range, Some(pct)),
            )
            &&& pct.units < 0 ==> b.price_at_val(pct) == plus(b.low.val(), times(range, whole(0)))
            &&& pct.units > unit() ==> b.price_at_val(pct) == plus(
                b.low.val(),
                times(range, whole(1)),
            )
        }),
{
}

/// A bar is inside another where its high is lower and its low higher; its body engulfs
/// another where it reaches both further up and further down.
pub proof fn bars_contain_each_other_by_their_prices(b: OhlcvBar, c: OhlcvBar)
    ensures
        b.inside(c) <==> b.high@ < c.high@ && b.low@ > c.low@,
        b.engulfs(c) <==> (b.open@ < c.open@ || b.close@ < c.open@) && (b.open@ < c.close@
            || b.close@ < c.close@) && (b.open@ > c.open@ || b.close@ > c.open@) && (b.open@
            > c.close@ || b.close@ > c.close@),
        b.is_valid() <==> b.low@ <= b.open@ && b.open@ <= b.high@ && b.low@ <= b.close@ && b.close@
            <= b.high@,
{
}

/// The parts of a bar are differences of its prices: exactly so where no rounding is
/// needed, and rounded to the nearest decimal otherwise.
pub proof fn parts_are_differences_of_prices(b: OhlcvBar)
    ensures
        ({
            let top = if b.open@ < b.close@ {
                b.close@
            } else {
                b.open@
            };
            let bottom = if b.close@ < b.open@ {
                b.close@
            } else {
                b.open@
            };
            &&& is_decimal(b.high@ - b.low@) ==> amounts_to(b.range_val(), b.high@ - b.low@)
            &&& is_decimal(b.close@ - b.open@) ==> amounts_to(
                b.price_change_val(),
                b.close@ - b.open@,
            )
            &&& is_decimal(b.close@ - b.open@) ==> amounts_to(b.body_val(), top - bottom)
            &&& amounts_to(b.body_high_val(), top)
            &&& amounts_to(b.body_low_val(), bottom)
            &&& is_decimal(b.high@ - top) ==> amounts_to(b.wick_upper_val(), b.high@ - top)
            &&& is_decimal(bottom - b.low@) ==> amounts_to(b.wick_lower_val(), bottom - b.low@)
        }),
{
    let top = b.body_high_val()->0.units;
    let bottom = b.body_low_val()->0.units;
    if is_decimal(b.high@ - b.low@) {
        exact_operations_are_kept(b.high@, b.low@, b.high@ - b.low@);
    }
    if is_decimal(b.close@ - b.open@) {
        exact_operations_are_kept(b.close@, b.open@, b.close@ - b.open@);
    }
    if is_decimal(b.high@ - top) {
        exact_operations_are_kept(b.high@, top, b.high@ - top);
    }
    if is_decimal(bottom - b.low@) {
        exact_operations_are_kept(bottom, b.low@, bottom - b.low@);
    }
}

/// The typical price is a third of high, low and close together, and the middle of a bar
/// is half of high and low together, where no rounding is needed.
pub proof fn middle_prices_are_means_of_prices(b: OhlcvBar, v: int)
    requires
        is_decimal(v),
        is_decimal(b.high@ + b.low@),
        is_decimal(b.high@ + b.low@ + b.close@),
    ensures
        3 * v == b.high@ + b.low@ + b.close@ ==> amounts_to(b.typical_price_val(), v),
        2 * v == b.high@ + b.low@ ==> amounts_to(b.median_price_val(), v),
{
    let two = b.high@ + b.low@;
    let three = b.high@ + b.low@ + b.close@;
    exact_operations_are_kept(b.high@, b.low@, two);
    exact_operations_are_kept(two, b.close@, three);
    let pair = plus(b.high.val(), b.low.val());
    let all = plus(pair, b.close.val());
    if 3 * v == three {
        assert(three * unit() == v * (3 * unit())) by (nonlinear_arith)
            requires
                3 * v == three,
        ;
        exact_quotient_is_kept(all->0, whole(3)->0, v);
    }
    if 2 * v == two {
        assert(two * unit() == v * (2 * unit())) by (nonlinear_arith)
            requires
                2 * v == two,
        ;
        exact_quotient_is_kept(pair->0, whole(2)->0, v);
    }
}

} // verus!
