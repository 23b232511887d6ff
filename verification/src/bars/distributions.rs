//! How body sizes and volumes are distributed over bars.

use crate::bar::OhlcvBar;
use crate::bars::{bodies, volume_shares, volumes};
use crate::decimal::{
    lemma_pow10_28, lemma_pow10_adds, lemma_pow10_positive, lemma_product_sign, max_mantissa, minus,
    over, pow10, power_of_ten, unit, whole, Decimal, Num, Tie,
};
use crate::decimal_laws::{
    differences_keep_order, exact_decimal_is_kept, result_is_a_decimal, rounding_is_symmetric,
};
use crate::series::{
    self, all_some, highest, highest_is_the_greatest, lowest, lowest_is_the_least, tally, total,
    values,
};
use crate::series_laws::{count_of_all, counts_of_parts_add_up};
use vstd::arithmetic::div_mod::{lemma_fundamental_div_mod, lemma_mod_bound};
use vstd::prelude::*;

verus! {

/// The units in one.
const ONE: u128 = 10_000_000_000_000_000_000_000_000_000;

/// The number of buckets.
pub open spec fn bucket_count() -> int {
    8
}

/// The greatest `k`, up to `top`, for which `k` times `range` is not above
/// `bucket_count` times `offset`.
pub open spec fn bucket_up_to(offset: int, range: int, top: int) -> int
    decreases top,
{
    if top <= 0 || top * range <= bucket_count() * offset {
        top
    } else {
        bucket_up_to(offset, range, top - 1)
    }
}

/// The bucket of a number at a distance `offset` from the lower end of a range
/// that is split into buckets of equal width. The upper end is in the last
/// bucket, and all is in the first where the range is zero.
pub open spec fn bucket(offset: int, range: int) -> int {
    if range == 0 {
        0
    } else {
        bucket_up_to(offset, range, bucket_count() - 1)
    }
}

/// The distance from the smallest to the largest body.
pub open spec fn body_span(bars: Seq<OhlcvBar>) -> Option<Num> {
    minus(highest(bars.len() as int, bodies(bars)), lowest(bars.len() as int, bodies(bars)))
}

/// The bucket of the body of the bar at `i`.
pub open spec fn body_bucket(bars: Seq<OhlcvBar>, i: int) -> int {
    bucket(
        minus(bars[i].body_val(), lowest(bars.len() as int, bodies(bars)))->0.units,
        body_span(bars)->0.units,
    )
}

/// Which bars have a body in bucket `k`.
pub open spec fn in_bucket(bars: Seq<OhlcvBar>, k: int) -> spec_fn(int) -> bool {
    |i: int| body_bucket(bars, i) == k
}

/// The number of bars with a body in one of the first `k` buckets.
pub open spec fn bucket_total(bars: Seq<OhlcvBar>, k: int) -> int
    decreases k,
{
    if k <= 0 {
        0
    } else {
        bucket_total(bars, k - 1) + tally(bars.len() as int, in_bucket(bars, k - 1))
    }
}

/// Bodies in range have a span in range, since none of them is negative.
pub proof fn bodies_have_a_span(bars: Seq<OhlcvBar>)
    requires
        bars.len() > 0,
        all_some(bars.len() as int, bodies(bars)),
    ensures
        body_span(bars) is Some,
        body_span(bars)->0.units >= 0,
{
    let n = bars.len() as int;
    let f = bodies(bars);
    highest_is_the_greatest(n, f);
    lowest_is_the_least(n, f);
    let i = choose|i: int| 0 <= i < n && #[trigger] f(i) == highest(n, f);
    let j = choose|j: int| 0 <= j < n && #[trigger] f(j) == lowest(n, f);
    let high = highest(n, f)->0.units;
    let low = lowest(n, f)->0.units;
    assert(low <= f(i)->0.units);
    let (open, close) = (bars[i].open@, bars[i].close@);
    rounding_is_symmetric(close - open, unit(), Tie::Even);
    result_is_a_decimal(close - open, unit(), Tie::Even);
    result_is_a_decimal(-(close - open), unit(), Tie::Even);
    exact_decimal_is_kept(high, unit(), high, Tie::Even);
    differences_keep_order(high, low, high, 0);
}

/// A bucket is one of those there are.
pub proof fn bucket_is_one_of_all(offset: int, range: int)
    ensures
        0 <= bucket(offset, range) < bucket_count(),
{
    lemma_bucket_up_to(offset, range, bucket_count() - 1);
}

proof fn lemma_bucket_up_to(offset: int, range: int, top: int)
    requires
        top >= 0,
    ensures
        0 <= bucket_up_to(offset, range, top) <= top,
    decreases top,
{
    if top > 0 {
        lemma_bucket_up_to(offset, range, top - 1);
    }
}

/// Every bar is in one bucket, so that the counts of the buckets add up to the
/// number of bars.
pub proof fn buckets_hold_every_bar(bars: Seq<OhlcvBar>)
    ensures
        bucket_total(bars, bucket_count()) == bars.len(),
{
    let n = bars.len() as int;
    let below = |i: int| body_bucket(bars, i) < bucket_count();
    lemma_bucket_total(bars, bucket_count(), below);
    assert forall|i: int| 0 <= i < n implies #[trigger] below(i) by {
        bucket_is_one_of_all(
            minus(bars[i].body_val(), lowest(n, bodies(bars)))->0.units,
            body_span(bars)->0.units,
        );
    }
    count_of_all(n, below);
}

proof fn lemma_bucket_total(bars: Seq<OhlcvBar>, k: int, below: spec_fn(int) -> bool)
    requires
        k >= 0,
        forall|i: int| 0 <= i < bars.len() ==> #[trigger] below(i) == (body_bucket(bars, i) < k),
    ensures
        bucket_total(bars, k) == tally(bars.len() as int, below),
    decreases k,
{
    let n = bars.len() as int;
    if k > 0 {
        let less = |i: int| body_bucket(bars, i) < k - 1;
        lemma_bucket_total(bars, k - 1, less);
        counts_of_parts_add_up(n, less, in_bucket(bars, k - 1), below);
    } else {
        assert forall|i: int| 0 <= i < n implies !(#[trigger] below(i)) by {
            bucket_is_one_of_all(
                minus(bars[i].body_val(), lowest(n, bodies(bars)))->0.units,
                body_span(bars)->0.units,
            );
        }
        lemma_none(n, below);
    }
}

proof fn lemma_none(n: int, p: spec_fn(int) -> bool)
    requires
        forall|i: int| 0 <= i < n ==> !(#[trigger] p(i)),
    ensures
        tally(n, p) == 0,
    decreases n,
{
    if n > 0 {
        lemma_none(n - 1, p);
        assert(!p(n - 1));
    }
}

/// A multiple of a number, as whole ones and units.
fn multiple(k: u128, d: Decimal) -> (r: (u128, u128))
    requires
        k <= bucket_count(),
        0 <= d@,
    ensures
        r.0 * unit() + r.1 == k * d@,
        r.1 < unit(),
{
    let (mantissa, scale) = d.parts();
    proof {
        lemma_pow10_positive((28 - scale) as nat);
        lemma_product_sign(mantissa as int, pow10((28 - scale) as nat));
    }
    let m: u128 = mantissa as u128;
    let up: u128 = power_of_ten(scale);
    let down: u128 = power_of_ten(28 - scale);
    proof {
        lemma_pow10_adds(scale as nat, (28 - scale) as nat);
        lemma_pow10_28();
        lemma_fundamental_div_mod(m as int, up as int);
        lemma_mod_bound(m as int, up as int);
        let (q, r) = (m as int / up as int, m as int % up as int);
        assert(m * down == q * unit() + r * down) by (nonlinear_arith)
            requires
                m == up * q + r,
                up * down == unit(),
        ;
        assert(0 <= r * down < unit()) by (nonlinear_arith)
            requires
                0 <= r < up,
                up * down == unit(),
                down > 0,
        ;
        assert(0 <= q <= m) by (nonlinear_arith)
            requires
                m == up * q + r,
                0 <= r < up,
                m >= 0,
        ;
        assert(k * q <= 8 * max_mantissa()) by (nonlinear_arith)
            requires
                0 <= k <= 8,
                0 <= q <= max_mantissa(),
        ;
        assert(0 <= k * (r * down) <= 8 * unit()) by (nonlinear_arith)
            requires
                0 <= k <= 8,
                0 <= r * down < unit(),
        ;
        assert(k * (q * unit() + r * down) == (k * q) * unit() + k * (r * down))
            by (nonlinear_arith);
    }
    let ones: u128 = k * (m / up);
    let units: u128 = k * ((m % up) * down);
    (ones + units / ONE, units % ONE)
}

/// The bucket of a number at a distance from the lower end of a range.
fn bucket_of(offset: Decimal, range: Decimal) -> (r: usize)
    requires
        0 <= offset@ <= range@,
    ensures
        r == bucket(offset@, range@),
{
    if range.is_zero() {
        return 0;
    }
    let (ones, units) = multiple(8, offset);
    let mut k: usize = 7;
    while k > 0
        invariant
            k <= 7,
            0 <= range@,
            ones * unit() + units == bucket_count() * offset@,
            units < unit(),
            bucket_up_to(offset@, range@, k as int) == bucket_up_to(offset@, range@, 7),
        ensures
            k == bucket_up_to(offset@, range@, 7),
        decreases k,
    {
        let (some_ones, some_units) = multiple(k as u128, range);
        if some_ones < ones || (some_ones == ones && some_units <= units) {
            break;
        }
        k -= 1;
    }
    k
}

impl OhlcvBar {
    /// The numbers of bars in each of 8 buckets of equal width, from the smallest
    /// body to the largest.
    ///
    /// Returns `None` for fewer than 2 bars.
    pub fn body_size_buckets(bars: &[OhlcvBar]) -> (r: Option<Vec<usize>>)
        requires
            bars@.len() >= 2 ==> all_some(bars@.len() as int, bodies(bars@)),
        ensures
            r is Some == (bars@.len() >= 2),
            r matches Some(counts) ==> {
                &&& counts@.len() == bucket_count()
                &&& forall|k: int|
                    0 <= k < bucket_count() ==> #[trigger] counts@[k] == tally(
                        bars@.len() as int,
                        in_bucket(bars@, k),
                    )
            },
    {
        if bars.len() < 2 {
            return None;
        }
        let ghost n = bars@.len() as int;
        let high = series::greatest(
            bars,
            |b: &OhlcvBar| -> (d: Decimal)
                requires
                    b.body_val() is Some,
                ensures
                    d.val() == b.body_val()
            { b.body() },
            Ghost(bodies(bars@)),
        )?;
        let low = series::least(
            bars,
            |b: &OhlcvBar| -> (d: Decimal)
                requires
                    b.body_val() is Some,
                ensures
                    d.val() == b.body_val()
            { b.body() },
            Ghost(bodies(bars@)),
        )?;
        proof {
            bodies_have_a_span(bars@);
        }
        let range = high - low;
        proof {
            highest_is_the_greatest(n, bodies(bars@));
            lowest_is_the_least(n, bodies(bars@));
            assert forall|i: int| 0 <= i < n implies {
                let offset = minus((#[trigger] bars@[i]).body_val(), low.val());
                bars@[i].body_val() is Some && offset is Some && 0 <= offset->0.units <= range@
            } by {
                assert(bodies(bars@)(i) is Some);
                differences_keep_order(bodies(bars@)(i)->0.units, low@, high@, low@);
            }
        }
        let mut counts: Vec<usize> = Vec::new();
        let mut k: usize = 0;
        while k < 8
            invariant
                k <= 8,
                n == bars@.len(),
                low.val() == lowest(n, bodies(bars@)),
                range.val() == body_span(bars@),
                forall|i: int|
                    0 <= i < n ==> {
                        let offset = minus((#[trigger] bars@[i]).body_val(), low.val());
                        bars@[i].body_val() is Some && offset is Some && 0 <= offset->0.units <= range@
                    },
                counts@.len() == k,
                forall|j: int|
                    0 <= j < k ==> #[trigger] counts@[j] == tally(n, in_bucket(bars@, j)),
            decreases 8 - k,
        {
            let count: usize = series::count(
                bars,
                |b: &OhlcvBar| -> (r: bool)
                    requires
                        b.body_val() is Some,
                        minus(b.body_val(), low.val()) is Some,
                        0 <= minus(b.body_val(), low.val())->0.units <= range@,
                    ensures
                        r == (bucket(minus(b.body_val(), low.val())->0.units, range@) == k)
                { bucket_of(b.body() - low, range) == k },
                Ghost(in_bucket(bars@, k as int)),
            );
            counts.push(count);
            k += 1;
        }
        Some(counts)
    }

    /// The share of each bar in the total volume; no shares where that is zero.
    ///
    /// Returns `None` for an empty slice.
    pub fn volume_weights(bars: &[OhlcvBar]) -> (r: Option<Vec<Decimal>>)
        requires
            total(bars@.len() as int, volumes(bars@)) is Some,
            ({
                let all = total(bars@.len() as int, volumes(bars@))->0;
                all.units != 0 ==> all_some(bars@.len() as int, volume_shares(bars@, all))
            }),
        ensures
            r is Some == (bars@.len() > 0),
            r matches Some(list) ==> {
                let all = total(bars@.len() as int, volumes(bars@))->0;
                if all.units == 0 {
                    list@.len() == 0
                } else {
                    values(list@) == Seq::new(bars@.len(), volume_shares(bars@, all))
                }
            },
    {
        if bars.len() == 0 {
            return None;
        }
        let all = series::add_up(
            bars,
            |b: &OhlcvBar| -> (d: Decimal)
                ensures
                    d.val() == b.volume.val()
            { b.volume },
            Ghost(volumes(bars@)),
        );
        if all.is_zero() {
            return Some(Vec::new());
        }
        Some(
            series::collect_all(
                bars,
                |b: &OhlcvBar| -> (d: Decimal)
                    requires
                        over(b.volume.val(), all.val()) is Some,
                    ensures
                        d.val() == over(b.volume.val(), all.val())
                { b.volume / all },
                Ghost(volume_shares(bars@, all.num())),
            ),
        )
    }
}

} // verus!
