//! What is said of a run of bars as a whole: extremes, directions, averages and buckets,
//! in the prices and volumes of the bars.

use crate::bar::{BarDirection, OhlcvBar};
use crate::bars::{
    bodies, channel, close_above_averages, close_span, closes, direction_before, gaps_up,
    has_vwap_count, high_averages, highs, is_highest_volume, is_lowest_volume, last_bars, lows,
    mean_vwap_val, middle_volume, millis, new_highs, new_lows, relative_gap, reversals, reverts_to,
    ticks, top_volumes, volumes, weighted_close_val,
};
use crate::bars::deviations::{deviates_by_a_trillionth, listed, unwrapped};
use crate::bars::distributions::{bodies_have_a_span, bucket, bucket_up_to, in_bucket};
use crate::bars::trends::{held_alpha, items};
use crate::decimal::{amounts_to, minus, over, plus, times, unit, whole, Num};
use crate::decimal_laws::{
    differences_keep_order, exact_operations_are_kept, is_decimal, zero_and_one_are_decimals,
};
use crate::moment_laws::{moments_add_up_distances_from_the_mean, sigma, squared_distances};
use crate::series::{
    all_some, ascending, highest, highest_is_the_greatest, kept, last_highest, lowest,
    lowest_is_the_least, mean, smoothed, tally, total, total_where, windows,
};
use crate::series_laws::{greatest_values_are_equal, sorting_keeps_the_values};
use crate::statistics_laws::{is_kth_smallest, sorting_ranks_the_values};
use vstd::prelude::*;

verus! {

/// Whether no bar has a higher high than the bar at `i`.
pub open spec fn has_highest_high(bars: Seq<OhlcvBar>, i: int) -> bool {
    &&& 0 <= i < bars.len()
    &&& forall|j: int| 0 <= j < bars.len() ==> (#[trigger] bars[j]).high@ <= bars[i].high@
}

/// Whether no bar has a lower low than the bar at `i`.
pub open spec fn has_lowest_low(bars: Seq<OhlcvBar>, i: int) -> bool {
    &&& 0 <= i < bars.len()
    &&& forall|j: int| 0 <= j < bars.len() ==> (#[trigger] bars[j]).low@ >= bars[i].low@
}

/// Whether no bar has a higher close than the bar at `i`.
pub open spec fn has_highest_close(bars: Seq<OhlcvBar>, i: int) -> bool {
    &&& 0 <= i < bars.len()
    &&& forall|j: int| 0 <= j < bars.len() ==> (#[trigger] bars[j]).close@ <= bars[i].close@
}

/// Whether no bar has a lower close than the bar at `i`.
pub open spec fn has_lowest_close(bars: Seq<OhlcvBar>, i: int) -> bool {
    &&& 0 <= i < bars.len()
    &&& forall|j: int| 0 <= j < bars.len() ==> (#[trigger] bars[j]).close@ >= bars[i].close@
}

/// Whether no bar has a greater volume than the bar at `i`.
pub open spec fn has_greatest_volume(bars: Seq<OhlcvBar>, i: int) -> bool {
    &&& 0 <= i < bars.len()
    &&& forall|j: int| 0 <= j < bars.len() ==> (#[trigger] bars[j]).volume@ <= bars[i].volume@
}

/// Whether no bar has a smaller volume than the bar at `i`.
pub open spec fn has_least_volume(bars: Seq<OhlcvBar>, i: int) -> bool {
    &&& 0 <= i < bars.len()
    &&& forall|j: int| 0 <= j < bars.len() ==> (#[trigger] bars[j]).volume@ >= bars[i].volume@
}

/// The channel of bars reaches from a lowest low to a highest high, the span of closes
/// from a lowest to a highest close, and the middle volume lies halfway between a least
/// and a greatest volume.
pub proof fn spans_reach_from_the_lowest_to_the_highest(bars: Seq<OhlcvBar>)
    requires
        bars.len() > 0,
    ensures
        exists|i: int, j: int|
            #[trigger] has_highest_high(bars, i) && #[trigger] has_lowest_low(bars, j) && channel(
                bars,
            ) == minus(bars[i].high.val(), bars[j].low.val()),
        exists|i: int, j: int|
            #[trigger] has_highest_close(bars, i) && #[trigger] has_lowest_close(bars, j)
                && close_span(bars) == minus(bars[i].close.val(), bars[j].close.val()),
        exists|i: int, j: int|
            #[trigger] has_greatest_volume(bars, i) && #[trigger] has_least_volume(bars, j)
                && middle_volume(bars) == over(
                plus(bars[i].volume.val(), bars[j].volume.val()),
                whole(2),
            ),
{
    let n = bars.len() as int;
    assert(all_some(n, highs(bars)) && all_some(n, lows(bars)));
    assert(all_some(n, closes(bars)) && all_some(n, volumes(bars)));
    highest_is_the_greatest(n, highs(bars));
    lowest_is_the_least(n, lows(bars));
    highest_is_the_greatest(n, closes(bars));
    lowest_is_the_least(n, closes(bars));
    highest_is_the_greatest(n, volumes(bars));
    lowest_is_the_least(n, volumes(bars));
    greatest_values_are_equal(n, volumes(bars));
    let a = choose|a: int| 0 <= a < n && #[trigger] highs(bars)(a) == highest(n, highs(bars));
    let b = choose|b: int| 0 <= b < n && #[trigger] lows(bars)(b) == lowest(n, lows(bars));
    let c = choose|c: int| 0 <= c < n && #[trigger] closes(bars)(c) == highest(n, closes(bars));
    let d = choose|d: int| 0 <= d < n && #[trigger] closes(bars)(d) == lowest(n, closes(bars));
    let f = choose|f: int| 0 <= f < n && #[trigger] volumes(bars)(f) == lowest(n, volumes(bars));
    let e = lemma_last_highest(n, volumes(bars));
    assert forall|j: int| 0 <= j < n implies (#[trigger] bars[j]).high@ <= bars[a].high@
        && bars[j].low@ >= bars[b].low@ && bars[j].close@ <= bars[c].close@ && bars[j].close@
        >= bars[d].close@ && bars[j].volume@ <= bars[e].volume@ && bars[j].volume@
        >= bars[f].volume@ by {
        assert(highs(bars)(j)->0.units <= highest(n, highs(bars))->0.units);
        assert(lows(bars)(j)->0.units >= lowest(n, lows(bars))->0.units);
        assert(closes(bars)(j)->0.units <= highest(n, closes(bars))->0.units);
        assert(closes(bars)(j)->0.units >= lowest(n, closes(bars))->0.units);
        assert(volumes(bars)(j)->0.units <= highest(n, volumes(bars))->0.units);
        assert(volumes(bars)(j)->0.units >= lowest(n, volumes(bars))->0.units);
    }
    assert(has_highest_high(bars, a) && has_lowest_low(bars, b));
    assert(has_highest_close(bars, c) && has_lowest_close(bars, d));
    assert(has_greatest_volume(bars, e) && has_least_volume(bars, f));
}

proof fn lemma_last_highest(n: int, f: spec_fn(int) -> Option<Num>) -> (i: int)
    requires
        n > 0,
        all_some(n, f),
    ensures
        0 <= i < n,
        f(i) == last_highest(n, f),
        forall|j: int| i < j < n ==> (#[trigger] f(j))->0.units < f(i)->0.units,
    decreases n,
{
    assert(f(n - 1) is Some);
    if n == 1 {
        0
    } else {
        let i = lemma_last_highest(n - 1, f);
        if f(n - 1)->0.units < f(i)->0.units {
            i
        } else {
            n - 1
        }
    }
}

/// The greatest value of a series that is taken last is one of its values, none is
/// greater, and every later one is less.
pub proof fn last_of_the_greatest_values_is_taken(n: int, f: spec_fn(int) -> Option<Num>)
    requires
        n > 0,
        all_some(n, f),
    ensures
        exists|i: int|
            {
                &&& 0 <= i < n
                &&& #[trigger] f(i) == last_highest(n, f)
                &&& forall|j: int| i < j < n ==> (#[trigger] f(j))->0.units < f(i)->0.units
            },
        forall|j: int| 0 <= j < n ==> (#[trigger] f(j))->0.units <= last_highest(n, f)->0.units,
{
    let i = lemma_last_highest(n, f);
    assert(f(i) == last_highest(n, f));
    highest_is_the_greatest(n, f);
    greatest_values_are_equal(n, f);
}

/// A bar makes a new high where its high is above all highs before, and a new low where
/// its low is below all lows before; the first bar makes none.
pub proof fn new_extremes_are_beyond_all_before(bars: Seq<OhlcvBar>, i: int)
    requires
        0 <= i < bars.len(),
    ensures
        new_highs(bars)(i) <==> i > 0 && forall|j: int|
            0 <= j < i ==> (#[trigger] bars[j]).high@ < bars[i].high@,
        new_lows(bars)(i) <==> i > 0 && forall|j: int|
            0 <= j < i ==> (#[trigger] bars[j]).low@ > bars[i].low@,
{
    if i > 0 {
        assert(all_some(i, highs(bars)) && all_some(i, lows(bars)));
        highest_is_the_greatest(i, highs(bars));
        lowest_is_the_least(i, lows(bars));
        let a = choose|a: int| 0 <= a < i && #[trigger] highs(bars)(a) == highest(i, highs(bars));
        let b = choose|b: int| 0 <= b < i && #[trigger] lows(bars)(b) == lowest(i, lows(bars));
        if new_highs(bars)(i) {
            assert forall|j: int| 0 <= j < i implies (#[trigger] bars[j]).high@ < bars[i].high@ by {
                assert(highs(bars)(j)->0.units <= highest(i, highs(bars))->0.units);
            }
        }
        if new_lows(bars)(i) {
            assert forall|j: int| 0 <= j < i implies (#[trigger] bars[j]).low@ > bars[i].low@ by {
                assert(lows(bars)(j)->0.units >= lowest(i, lows(bars))->0.units);
            }
        }
        if forall|j: int| 0 <= j < i ==> (#[trigger] bars[j]).high@ < bars[i].high@ {
            assert(bars[a].high@ < bars[i].high@);
        }
        if forall|j: int| 0 <= j < i ==> (#[trigger] bars[j]).low@ > bars[i].low@ {
            assert(bars[b].low@ > bars[i].low@);
        }
    }
}

/// Whether the bar at `k` is the last one before `n` that closes elsewhere than it
/// opens.
pub open spec fn moved_last(bars: Seq<OhlcvBar>, k: int, n: int) -> bool {
    &&& 0 <= k < n
    &&& bars[k].close@ != bars[k].open@
    &&& forall|j: int| k < j < n ==> (#[trigger] bars[j]).close@ == bars[j].open@
}

/// The direction before a bar is that of the last bar which moved: there is one exactly
/// where a bar moved.
pub proof fn direction_is_that_of_the_last_move(bars: Seq<OhlcvBar>, n: int)
    requires
        0 <= n <= bars.len(),
    ensures
        match direction_before(bars, n) {
            BarDirection::Bullish => exists|k: int|
                #[trigger] moved_last(bars, k, n) && bars[k].close@ > bars[k].open@,
            BarDirection::Bearish => exists|k: int|
                #[trigger] moved_last(bars, k, n) && bars[k].close@ < bars[k].open@,
            BarDirection::Neutral => forall|j: int|
                0 <= j < n ==> (#[trigger] bars[j]).close@ == bars[j].open@,
        },
    decreases n,
{
    if n > 0 {
        direction_is_that_of_the_last_move(bars, n - 1);
        if bars[n - 1].close@ != bars[n - 1].open@ {
            assert(moved_last(bars, n - 1, n));
        } else {
            match direction_before(bars, n - 1) {
                BarDirection::Bullish => {
                    let k = choose|k: int|
                        #[trigger] moved_last(bars, k, n - 1) && bars[k].close@ > bars[k].open@;
                    assert(moved_last(bars, k, n));
                },
                BarDirection::Bearish => {
                    let k = choose|k: int|
                        #[trigger] moved_last(bars, k, n - 1) && bars[k].close@ < bars[k].open@;
                    assert(moved_last(bars, k, n));
                },
                BarDirection::Neutral => {},
            }
        }
    }
}

/// A bar turns the direction round where it moves one way and the last bar that moved
/// before it went the other way.
pub proof fn reversal_follows_the_opposite_move(bars: Seq<OhlcvBar>, i: int)
    requires
        0 <= i < bars.len(),
    ensures
        reversals(bars)(i) <==> exists|k: int|
            #[trigger] moved_last(bars, k, i) && ((bars[k].close@ > bars[k].open@ && bars[i].close@
                < bars[i].open@) || (bars[k].close@ < bars[k].open@ && bars[i].close@
                > bars[i].open@)),
{
    direction_is_that_of_the_last_move(bars, i);
    if exists|k: int| #[trigger] moved_last(bars, k, i) {
        let k = choose|k: int| #[trigger] moved_last(bars, k, i);
        assert forall|m: int| #[trigger] moved_last(bars, m, i) implies m == k by {
            if m < k {
                assert(bars[k].close@ == bars[k].open@);
            }
            if k < m {
                assert(bars[m].close@ == bars[m].open@);
            }
        }
        assert(bars[k].close@ != bars[k].open@);
    }
}

/// The ticks and the durations of bars are added up.
pub proof fn ticks_and_durations_add_up(bars: Seq<OhlcvBar>, n: int)
    requires
        0 <= n <= bars.len(),
    ensures
        ticks(bars, n) == sigma(n, |i: int| bars[i].trade_count as int),
        millis(bars, n) == sigma(n, |i: int| bars[i].timeframe.millis()),
    decreases n,
{
    if n > 0 {
        ticks_and_durations_add_up(bars, n - 1);
    }
}

/// A close reverts to a level where it moves from the close before towards the level
/// without passing it.
pub proof fn reverting_close_comes_nearer(bars: Seq<OhlcvBar>, level: int, i: int)
    ensures
        ({
            let was = bars[i].close@;
            let is = bars[i + 1].close@;
            reverts_to(bars, level)(i) <==> (was < is && is <= level) || (level <= is && is < was)
        }),
{
}

/// Weighted by volume, closes are added up times their volumes, and divided by all
/// volume; the mean of average prices is over the bars that have one.
pub proof fn weighted_averages_divide_by_the_weights(bars: Seq<OhlcvBar>)
    ensures
        weighted_close_val(bars) == over(
            total(
                bars.len() as int,
                |i: int| times(bars[i].close.val(), bars[i].volume.val()),
            ),
            total(bars.len() as int, |i: int| bars[i].volume.val()),
        ),
        mean_vwap_val(bars) == over(
            total_where(
                bars.len() as int,
                |i: int| bars[i].vwap is Some,
                |i: int| crate::bar::option_view(bars[i].vwap),
            ),
            whole(tally(bars.len() as int, |i: int| bars[i].vwap is Some)),
        ),
        has_vwap_count(bars) == tally(bars.len() as int, |i: int| bars[i].vwap is Some),
{
}

/// Which bars gap up, how far in relation to the close before, and which bar has the
/// highest or the lowest volume.
pub proof fn gaps_and_volumes_are_compared(bars: Seq<OhlcvBar>, i: int)
    ensures
        gaps_up(bars, i) ==> 0 <= i < bars.len() - 1 && bars[i].close@ != 0,
        0 <= i < bars.len() - 1 && bars[i].close@ != 0 ==> gaps_up(bars, i) == (minus(
            bars[i + 1].open.val(),
            bars[i].close.val(),
        )->0.units > 0),
        relative_gap(bars, i) == over(
            minus(bars[i + 1].open.val(), bars[i].close.val()),
            bars[i].close.val(),
        ),
        is_highest_volume(bars, i) <==> has_greatest_volume(bars, i) && forall|j: int|
            i < j < bars.len() ==> (#[trigger] bars[j]).volume@ < bars[i].volume@,
        is_lowest_volume(bars, i) <==> has_least_volume(bars, i) && forall|j: int|
            0 <= j < i ==> (#[trigger] bars[j]).volume@ > bars[i].volume@,
{
}

/// The last bars are those at the end, in order; the average of highs that a close is
/// held against is that of the bars up to its own.
pub proof fn windows_end_with_the_last_bar(bars: Seq<OhlcvBar>, n: int, i: int)
    requires
        0 < n <= bars.len(),
        0 <= i,
        i + n <= bars.len(),
    ensures
        last_bars(bars, n).len() == n,
        forall|k: int| 0 <= k < n ==> #[trigger] last_bars(bars, n)[k] == bars[bars.len() - n + k],
        high_averages(bars, n)(i) == mean(n, |k: int| bars[i + k].high.val()),
        close_above_averages(bars, n)(i) == (bars[i + n - 1].close@ > high_averages(bars, n)(
            i,
        )->0.units),
        windows(bars.len(), n) == bars.len() - n + 1,
        windows((n - 1) as nat, n) == 0,
{
    let part = bars.subrange(i, i + n);
    lemma_same_total(n, highs(part), |k: int| bars[i + k].high.val());
}

proof fn lemma_same_total(
    n: int,
    f: spec_fn(int) -> Option<Num>,
    g: spec_fn(int) -> Option<Num>,
)
    requires
        forall|k: int| 0 <= k < n ==> #[trigger] f(k) == g(k),
    ensures
        total(n, f) == total(n, g),
    decreases n,
{
    if n > 0 {
        lemma_same_total(n - 1, f, g);
        assert(f(n - 1) == g(n - 1));
    }
}

/// The top volumes are the greatest ones: of a third of the bars, but of one at least.
pub proof fn top_volumes_are_the_greatest(bars: Seq<OhlcvBar>, k: int)
    requires
        bars.len() > 0,
        0 <= k < top_volumes(bars).len(),
    ensures
        ({
            let n = bars.len() as int;
            let m = top_volumes(bars).len() as int;
            &&& n < 3 ==> m == 1
            &&& n >= 3 ==> 3 * m <= n < 3 * m + 3
            &&& is_kth_smallest(n, volumes(bars), n - m + 1 + k, top_volumes(bars)[k])
        }),
{
    let n = bars.len() as int;
    assert(all_some(n, volumes(bars)));
    sorting_keeps_the_values(n, volumes(bars));
    let m = top_volumes(bars).len() as int;
    sorting_ranks_the_values(n, volumes(bars), n - m + 1 + k);
    assert(top_volumes(bars)[k] == ascending(n, volumes(bars))[n - m + k]);
}

/// An exponential average starts with the first value; each further value takes a share
/// of `alpha` in it, and what was before keeps the rest. With a share of one it is the
/// last value alone.
pub proof fn exponential_average_mixes_in_each_value(
    n: int,
    f: spec_fn(int) -> Option<Num>,
    alpha: Num,
)
    requires
        n >= 1,
    ensures
        smoothed(1, f, alpha) == f(0),
        smoothed(n + 1, f, alpha) == plus(
            times(Some(alpha), f(n)),
            times(minus(whole(1), Some(alpha)), smoothed(n, f, alpha)),
        ),
        alpha.units == unit() && f(n) is Some && is_decimal(f(n)->0.units) && smoothed(
            n,
            f,
            alpha,
        ) is Some ==> amounts_to(smoothed(n + 1, f, alpha), f(n)->0.units),
{
    if alpha.units == unit() && f(n) is Some && is_decimal(f(n)->0.units) && smoothed(
        n,
        f,
        alpha,
    ) is Some {
        let x = f(n)->0.units;
        let s = smoothed(n, f, alpha)->0.units;
        zero_and_one_are_decimals();
        exact_operations_are_kept(unit(), unit(), 0);
        assert(unit() * x == x * unit()) by (nonlinear_arith);
        exact_operations_are_kept(unit(), x, x);
        exact_operations_are_kept(0, s, 0);
        exact_operations_are_kept(x, 0, x);
    }
}

/// A smoothing factor is taken as it is within `1e-9` and one, and held at these bounds
/// outside.
pub proof fn smoothing_factor_is_held_within_bounds(alpha: Num)
    ensures
        ({
            let least = unit() / 1_000_000_000;
            let held = held_alpha(alpha);
            &&& least <= alpha.units <= unit() ==> held.units == alpha.units
            &&& alpha.units < least ==> held.units == least
            &&& alpha.units > unit() ==> held.units == unit()
        }),
{
}

/// The values that are kept are those at which something holds, in order: as many as
/// are counted, and a further value is kept exactly where it holds there.
pub proof fn kept_values_are_those_that_count(
    n: int,
    p: spec_fn(int) -> bool,
    f: spec_fn(int) -> Option<Num>,
)
    requires
        n >= 0,
    ensures
        kept(0, p, f).len() == 0,
        kept(n, p, f).len() == tally(n, p),
        kept(n + 1, p, f) == (if p(n) {
            kept(n, p, f).push(f(n))
        } else {
            kept(n, p, f)
        }),
    decreases n,
{
    if n > 0 {
        kept_values_are_those_that_count(n - 1, p, f);
    }
}

/// Series are listed in units, in order.
pub proof fn series_are_listed_in_order(
    n: int,
    f: spec_fn(int) -> Option<Num>,
    s: Seq<Option<Num>>,
    t: Seq<Num>,
    i: int,
)
    requires
        0 <= i,
    ensures
        n >= 0 ==> listed(n, f).len() == n,
        i < n ==> listed(n, f)[i] == f(i)->0.units,
        unwrapped(s).len() == s.len(),
        i < s.len() ==> unwrapped(s)[i] == s[i]->0.units,
        items(t)(i) == Some(t[i]),
{
}

/// Numbers deviate by a trillionth where their variance is `1e-24` at least.
pub proof fn deviation_is_compared_with_a_trillionth(xs: Seq<int>)
    ensures
        deviates_by_a_trillionth(xs) <==> squared_distances(xs)
            * 1_000_000_000_000_000_000_000_000 >= ((xs.len() * xs.len()) * xs.len()) * (unit()
            * unit()),
{
    moments_add_up_distances_from_the_mean(xs, xs);
}

/// A number is in the bucket of eight of equal width in whose bounds it lies; the upper
/// end is in the last one.
pub proof fn bucket_holds_what_lies_in_its_bounds(offset: int, range: int)
    requires
        0 <= offset <= range,
        range > 0,
    ensures
        ({
            let k = bucket(offset, range);
            &&& 0 <= k < 8
            &&& k * range <= 8 * offset
            &&& k < 7 ==> 8 * offset < (k + 1) * range
        }),
{
    lemma_bucket(offset, range, 7);
}

proof fn lemma_bucket(offset: int, range: int, top: int)
    requires
        0 <= offset <= range,
        0 <= top <= 7,
        top < 7 ==> 8 * offset < (top + 1) * range,
    ensures
        ({
            let k = bucket_up_to(offset, range, top);
            &&& 0 <= k <= top
            &&& k * range <= 8 * offset
            &&& k < 7 ==> 8 * offset < (k + 1) * range
        }),
    decreases top,
{
    if top > 0 && top * range > 8 * offset {
        lemma_bucket(offset, range, top - 1);
    }
}

/// A bar counts in the bucket in whose bounds its body lies, of eight of equal width
/// from the smallest to the largest body; where all bodies are equal, in the first one.
pub proof fn body_counts_in_the_bucket_it_lies_in(
    bars: Seq<OhlcvBar>,
    least: int,
    greatest: int,
    i: int,
    k: int,
)
    requires
        0 <= least < bars.len() && 0 <= greatest < bars.len() && 0 <= i < bars.len(),
        all_some(bars.len() as int, bodies(bars)),
        forall|j: int|
            0 <= j < bars.len() ==> bars[least].body_val()->0.units <= (
            #[trigger] bars[j]).body_val()->0.units <= bars[greatest].body_val()->0.units,
    ensures
        ({
            let offset = minus(bars[i].body_val(), bars[least].body_val())->0.units;
            let span = minus(bars[greatest].body_val(), bars[least].body_val())->0.units;
            &&& span > 0 ==> (in_bucket(bars, k)(i) <==> 0 <= k < 8 && k * span <= 8 * offset && (k
                < 7 ==> 8 * offset < (k + 1) * span))
            &&& span == 0 ==> (in_bucket(bars, k)(i) <==> k == 0)
        }),
{
    let n = bars.len() as int;
    let f = bodies(bars);
    highest_is_the_greatest(n, f);
    lowest_is_the_least(n, f);
    assert(f(least) is Some && f(greatest) is Some && f(i) is Some);
    let top = choose|j: int| 0 <= j < n && #[trigger] f(j) == highest(n, f);
    let low = choose|j: int| 0 <= j < n && #[trigger] f(j) == lowest(n, f);
    assert(bars[top].body_val() == f(top) && bars[low].body_val() == f(low));
    assert(f(least)->0.units == lowest(n, f)->0.units);
    assert(f(greatest)->0.units == highest(n, f)->0.units);
    let offset = minus(bars[i].body_val(), bars[least].body_val())->0.units;
    let span = minus(bars[greatest].body_val(), bars[least].body_val())->0.units;
    bodies_have_a_span(bars);
    if span > 0 {
        differences_keep_order(
            f(i)->0.units,
            f(least)->0.units,
            f(greatest)->0.units,
            f(least)->0.units,
        );
        bucket_holds_what_lies_in_its_bounds(offset, span);
        let own = bucket(offset, span);
        if 0 <= k < 8 && k * span <= 8 * offset && (k < 7 ==> 8 * offset < (k + 1) * span) {
            assert(k == own) by (nonlinear_arith)
                requires
                    span > 0,
                    0 <= k < 8,
                    0 <= own < 8,
                    k * span <= 8 * offset,
                    k < 7 ==> 8 * offset < (k + 1) * span,
                    own * span <= 8 * offset,
                    own < 7 ==> 8 * offset < (own + 1) * span,
            ;
        }
    }
}

} // verus!
