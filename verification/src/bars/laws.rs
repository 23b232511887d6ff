//! Laws of what is read off a run of bars.

use crate::bar::OhlcvBar;
use crate::bar_laws::{
    body_takes_a_share_of_the_range, close_has_a_position_in_the_range,
    close_location_lies_within_one, flat_bar_has_one_price, parts_take_up_the_range,
};
use crate::bars::{
    any_gaps, body_shares, channel, close_below, close_locations, close_positions, close_span,
    closes, down_bars, drawdown, flat_bars, gap_downs, gap_ups, high_to_closes, highs,
    lower_wick_bars, lower_wick_shares, lows, moving_closes, persisting_closes, ranged_bars,
    reversing_closes, shadow_shares, up_bars, upper_wick_bars, upper_wick_shares, volumes,
};
use crate::decimal::{is_nought, minus, over, unit};
use crate::decimal_laws::{differences_keep_order, share_lies_within_one};
use crate::series::{
    all_some, highest, highest_is_the_greatest, lemma_total_prefix, lowest, lowest_is_the_least,
    mean, mean_where, tally, total, total_where, windows,
};
use crate::series_laws::{
    count_is_a_share, count_is_above_zero_where_one_counts, count_of_all, counts_of_parts_add_up,
    exact_total_where, mean_keeps_whole_bounds, mean_of_nonnegative_is_nonnegative,
    mean_of_shares_is_nearly_exact, part_of_a_sum_is_at_most_the_sum,
};
use vstd::prelude::*;

verus! {

/// Every bar is bullish, bearish or flat, and no bar is two of these.
pub proof fn directions_partition_the_bars(bars: Seq<OhlcvBar>)
    ensures
        tally(bars.len() as int, up_bars(bars)) + tally(bars.len() as int, down_bars(bars)) + tally(
            bars.len() as int,
            flat_bars(bars),
        ) == bars.len(),
{
    let n = bars.len() as int;
    let moving = |i: int| up_bars(bars)(i) || down_bars(bars)(i);
    let all = |i: int| true;
    counts_of_parts_add_up(n, up_bars(bars), down_bars(bars), moving);
    counts_of_parts_add_up(n, moving, flat_bars(bars), all);
    count_of_all(n, all);
}

/// Every gap is a gap up or a gap down.
pub proof fn gaps_go_up_or_down(bars: Seq<OhlcvBar>)
    ensures
        tally(windows(bars.len(), 2), any_gaps(bars)) == tally(
            windows(bars.len(), 2),
            gap_ups(bars),
        ) + tally(windows(bars.len(), 2), gap_downs(bars)),
{
    counts_of_parts_add_up(windows(bars.len(), 2), gap_ups(bars), gap_downs(bars), any_gaps(bars));
}

/// Where the close moves twice, the second move goes on or turns round, so that
/// persistence and reversal are shares that add up to one.
pub proof fn moves_persist_or_reverse(bars: Seq<OhlcvBar>)
    ensures
        tally(windows(bars.len(), 3), moving_closes(bars)) == tally(
            windows(bars.len(), 3),
            persisting_closes(bars),
        ) + tally(windows(bars.len(), 3), reversing_closes(bars)),
{
    counts_of_parts_add_up(
        windows(bars.len(), 3),
        persisting_closes(bars),
        reversing_closes(bars),
        moving_closes(bars),
    );
}

/// The excess of bullish over bearish bars, and that of longer upper over longer
/// lower wicks, is not greater than the number of bars, so that the score lies
/// between minus one and one.
pub proof fn scores_lie_within_one(bars: Seq<OhlcvBar>)
    ensures
        ({
            let n = bars.len() as int;
            let bodies = tally(n, up_bars(bars)) - tally(n, down_bars(bars));
            let wicks = tally(n, upper_wick_bars(bars)) - tally(n, lower_wick_bars(bars));
            &&& -n <= bodies <= n
            &&& -n <= wicks <= n
        }),
{
    let n = bars.len() as int;
    count_is_a_share(n, up_bars(bars));
    count_is_a_share(n, down_bars(bars));
    count_is_a_share(n, upper_wick_bars(bars));
    count_is_a_share(n, lower_wick_bars(bars));
}

/// The last close is above all other closes at most, so that its rank lies
/// between zero and one.
pub proof fn rank_lies_within_one(bars: Seq<OhlcvBar>)
    requires
        bars.len() > 0,
    ensures
        0 <= tally(bars.len() as int, close_below(bars, bars[bars.len() - 1].close@)) <= bars.len()
            - 1,
{
    count_is_a_share(bars.len() - 1, close_below(bars, bars[bars.len() - 1].close@));
}

/// The highest high of valid bars is at least the lowest low, and the last close
/// has a position between them: between zero and one.
pub proof fn last_close_lies_in_the_channel(bars: Seq<OhlcvBar>)
    requires
        bars.len() > 0,
        forall|i: int| 0 <= i < bars.len() ==> (#[trigger] bars[i]).is_valid(),
        channel(bars) is Some,
    ensures
        channel(bars)->0.units >= 0,
        !is_nought(channel(bars)) ==> ({
            let position = over(
                minus(bars[bars.len() - 1].close.val(), lowest(bars.len() as int, lows(bars))),
                channel(bars),
            );
            position is Some && 0 <= position->0.units <= unit()
        }),
{
    let n = bars.len() as int;
    assert(all_some(n, highs(bars)));
    assert(all_some(n, lows(bars)));
    highest_is_the_greatest(n, highs(bars));
    lowest_is_the_least(n, lows(bars));
    let top = highest(n, highs(bars))->0.units;
    let bottom = lowest(n, lows(bars))->0.units;
    let close = bars[n - 1].close@;
    assert(highs(bars)(n - 1)->0.units <= top);
    assert(lows(bars)(n - 1)->0.units >= bottom);
    assert(bars[n - 1].is_valid());
    differences_keep_order(close, bottom, top, bottom);
    if !is_nought(channel(bars)) {
        share_lies_within_one(
            minus(bars[n - 1].close.val(), lowest(n, lows(bars)))->0,
            channel(bars)->0,
        );
    }
}

/// The highest close is at least the lowest close, and the last close has a
/// position between them: between zero and one.
pub proof fn last_close_lies_in_the_close_span(bars: Seq<OhlcvBar>)
    requires
        bars.len() > 0,
        close_span(bars) is Some,
    ensures
        close_span(bars)->0.units >= 0,
        !is_nought(close_span(bars)) ==> ({
            let position = over(
                minus(bars[bars.len() - 1].close.val(), lowest(bars.len() as int, closes(bars))),
                close_span(bars),
            );
            position is Some && 0 <= position->0.units <= unit()
        }),
{
    let n = bars.len() as int;
    assert(all_some(n, closes(bars)));
    highest_is_the_greatest(n, closes(bars));
    lowest_is_the_least(n, closes(bars));
    let top = highest(n, closes(bars))->0.units;
    let bottom = lowest(n, closes(bars))->0.units;
    let close = bars[n - 1].close@;
    assert(closes(bars)(n - 1)->0.units <= top);
    assert(closes(bars)(n - 1)->0.units >= bottom);
    differences_keep_order(close, bottom, top, bottom);
    if !is_nought(close_span(bars)) {
        share_lies_within_one(
            minus(bars[n - 1].close.val(), lowest(n, closes(bars)))->0,
            close_span(bars)->0,
        );
    }
}

/// A drawdown is not negative, and does not shrink with more bars.
pub proof fn drawdown_only_grows(bars: Seq<OhlcvBar>, n: int, k: int)
    requires
        0 <= k <= n <= bars.len(),
        drawdown(bars, n) is Some,
    ensures
        drawdown(bars, k) is Some,
        0 <= drawdown(bars, k)->0.units <= drawdown(bars, n)->0.units,
    decreases n,
{
    if n > 1 {
        if k < n {
            drawdown_only_grows(bars, n - 1, k);
        } else {
            drawdown_only_grows(bars, n - 1, n - 1);
        }
    }
}

/// Closes that only rise have no drawdown.
pub proof fn rising_closes_have_no_drawdown(bars: Seq<OhlcvBar>, n: int)
    requires
        n <= bars.len(),
        forall|i: int, j: int|
            0 <= i < j < n ==> (#[trigger] bars[i]).close@ < (#[trigger] bars[j]).close@,
    ensures
        is_nought(drawdown(bars, n)),
    decreases n,
{
    if n > 1 {
        rising_closes_have_no_drawdown(bars, n - 1);
        assert(all_some(n - 1, closes(bars)));
        highest_is_the_greatest(n - 1, closes(bars));
        let i = choose|i: int|
            0 <= i < n - 1 && #[trigger] closes(bars)(i) == highest(n - 1, closes(bars));
        assert(bars[i].close@ < bars[n - 1].close@);
    }
}

/// The volume of some bars takes a share of the volume of all bars between zero
/// and one, where there is a volume and none is negative.
pub proof fn volume_of_some_bars_is_a_share(bars: Seq<OhlcvBar>, p: spec_fn(int) -> bool)
    requires
        forall|i: int| 0 <= i < bars.len() ==> (#[trigger] bars[i]).volume@ >= 0,
        total(bars.len() as int, volumes(bars)) is Some,
        !is_nought(total(bars.len() as int, volumes(bars))),
    ensures
        ({
            let share = over(
                total_where(bars.len() as int, p, volumes(bars)),
                total(bars.len() as int, volumes(bars)),
            );
            share is Some && 0 <= share->0.units <= unit()
        }),
{
    let n = bars.len() as int;
    assert forall|i: int| 0 <= i < n implies (#[trigger] volumes(bars)(i))->0.units >= 0 by {
        assert(bars[i].volume@ >= 0);
    }
    part_of_a_sum_is_at_most_the_sum(n, p, volumes(bars));
    share_lies_within_one(total_where(n, p, volumes(bars))->0, total(n, volumes(bars))->0);
}

/// Over valid bars the mean close location value lies between minus one and one,
/// and the mean share of the body in the range and the mean position of the
/// close in it lie between zero and one.
pub proof fn mean_shares_lie_within_one(bars: Seq<OhlcvBar>)
    requires
        forall|i: int| 0 <= i < bars.len() ==> (#[trigger] bars[i]).is_valid(),
        forall|i: int| 0 <= i < bars.len() ==> (#[trigger] bars[i]).range_val() is Some,
        tally(bars.len() as int, ranged_bars(bars)) > 0,
    ensures
        ({
            let n = bars.len() as int;
            let location = mean_where(n, ranged_bars(bars), close_locations(bars));
            let body = mean_where(n, ranged_bars(bars), body_shares(bars));
            let position = mean_where(n, ranged_bars(bars), close_positions(bars));
            &&& location is Some ==> -unit() <= location->0.units <= unit()
            &&& body is Some ==> 0 <= body->0.units <= unit()
            &&& position is Some ==> 0 <= position->0.units <= unit()
        }),
{
    let n = bars.len() as int;
    let p = ranged_bars(bars);
    assert forall|i: int| 0 <= i < n && p(i) implies -1 * unit() <= (#[trigger] close_locations(
        bars,
    )(i))->0.units <= 1 * unit() by {
        assert(bars[i].is_valid() && bars[i].range_val() is Some);
        close_location_lies_within_one(bars[i]);
    }
    assert forall|i: int| 0 <= i < n && p(i) implies 0 * unit() <= (#[trigger] body_shares(bars)(
        i,
    ))->0.units <= 1 * unit() by {
        assert(bars[i].is_valid() && bars[i].range_val() is Some);
        body_takes_a_share_of_the_range(bars[i]);
    }
    assert forall|i: int| 0 <= i < n && p(i) implies 0 * unit() <= (#[trigger] close_positions(
        bars,
    )(i))->0.units <= 1 * unit() by {
        assert(bars[i].is_valid() && bars[i].range_val() is Some);
        close_has_a_position_in_the_range(bars[i]);
    }
    if mean_where(n, p, close_locations(bars)) is Some {
        mean_keeps_whole_bounds(n, p, close_locations(bars), -1, 1);
    }
    if mean_where(n, p, body_shares(bars)) is Some {
        mean_keeps_whole_bounds(n, p, body_shares(bars), 0, 1);
    }
    if mean_where(n, p, close_positions(bars)) is Some {
        mean_keeps_whole_bounds(n, p, close_positions(bars), 0, 1);
    }
}

/// Whether two numbers of units are no more than `d` apart.
pub open spec fn within(a: int, b: int, d: int) -> bool {
    -d <= a - b <= d
}

/// Valid bars have mean shares of wicks, body and shadow in their ranges exactly
/// where one of them has a high above its low. Each mean lies between zero and
/// one. The wicks and the body add up to one, and the two wicks to the shadow, up
/// to `20 * n + 100` units over `n` bars: that is within `1e-9` for any number of
/// bars that could be held.
pub proof fn mean_shares_take_up_the_range(bars: Seq<OhlcvBar>)
    requires
        bars.len() <= u64::MAX,
        forall|i: int| 0 <= i < bars.len() ==> (#[trigger] bars[i]).is_valid(),
        forall|i: int| 0 <= i < bars.len() ==> (#[trigger] bars[i]).range_val() is Some,
    ensures
        ({
            let n = bars.len() as int;
            let upper = mean_where(n, ranged_bars(bars), upper_wick_shares(bars));
            let lower = mean_where(n, ranged_bars(bars), lower_wick_shares(bars));
            let body = mean_where(n, ranged_bars(bars), body_shares(bars));
            let shadow = mean_where(n, ranged_bars(bars), shadow_shares(bars));
            let some = tally(n, ranged_bars(bars)) > 0;
            &&& some <==> exists|i: int|
                0 <= i < n && (#[trigger] bars[i]).high@ > bars[i].low@
            &&& some ==> upper is Some && 0 <= upper->0.units <= unit()
            &&& some ==> lower is Some && 0 <= lower->0.units <= unit()
            &&& some ==> body is Some && 0 <= body->0.units <= unit()
            &&& some ==> shadow is Some && 0 <= shadow->0.units <= unit()
            &&& some ==> within(upper->0.units + lower->0.units + body->0.units, unit(), 20 * n + 100)
            &&& some ==> within(upper->0.units + lower->0.units, shadow->0.units, 20 * n + 100)
            &&& n <= 100_000_000_000_000_000 ==> 20 * n + 100 <= unit() / 1_000_000_000
        }),
{
    let n = bars.len() as int;
    let p = ranged_bars(bars);
    let k = tally(n, p);
    assert forall|i: int| 0 <= i < n implies #[trigger] p(i) == (bars[i].high@ > bars[i].low@) by {
        assert(bars[i].is_valid() && bars[i].range_val() is Some);
        flat_bar_has_one_price(bars[i]);
    }
    count_is_above_zero_where_one_counts(n, p);
    if exists|i: int| 0 <= i < n && (#[trigger] bars[i]).high@ > bars[i].low@ {
        let i = choose|i: int| 0 <= i < n && (#[trigger] bars[i]).high@ > bars[i].low@;
        assert(p(i));
    }
    if k > 0 {
        assert forall|i: int| 0 <= i < n && p(i) implies {
            let u = #[trigger] upper_wick_shares(bars)(i);
            let l = lower_wick_shares(bars)(i);
            let m = body_shares(bars)(i);
            let s = shadow_shares(bars)(i);
            &&& u is Some && 0 <= u->0.units <= unit()
            &&& l is Some && 0 <= l->0.units <= unit()
            &&& m is Some && 0 <= m->0.units <= unit()
            &&& s is Some && 0 <= s->0.units <= unit()
        } by {
            assert(bars[i].is_valid() && bars[i].range_val() is Some);
            parts_take_up_the_range(bars[i]);
        }
        assert forall|i: int| 0 <= i < n && p(i) implies (#[trigger] lower_wick_shares(bars)(
            i,
        )) is Some && 0 <= lower_wick_shares(bars)(i)->0.units <= unit() by {
            assert(upper_wick_shares(bars)(i) is Some);
        }
        assert forall|i: int| 0 <= i < n && p(i) implies (#[trigger] body_shares(bars)(
            i,
        )) is Some && 0 <= body_shares(bars)(i)->0.units <= unit() by {
            assert(upper_wick_shares(bars)(i) is Some);
        }
        assert forall|i: int| 0 <= i < n && p(i) implies (#[trigger] shadow_shares(bars)(
            i,
        )) is Some && 0 <= shadow_shares(bars)(i)->0.units <= unit() by {
            assert(upper_wick_shares(bars)(i) is Some);
        }
        mean_of_shares_is_nearly_exact(n, p, upper_wick_shares(bars));
        mean_of_shares_is_nearly_exact(n, p, lower_wick_shares(bars));
        mean_of_shares_is_nearly_exact(n, p, body_shares(bars));
        mean_of_shares_is_nearly_exact(n, p, shadow_shares(bars));
        lemma_exact_shares(bars, n);
        count_is_a_share(n, p);
        let u = mean_where(n, p, upper_wick_shares(bars))->0.units;
        let l = mean_where(n, p, lower_wick_shares(bars))->0.units;
        let m = mean_where(n, p, body_shares(bars))->0.units;
        let s = mean_where(n, p, shadow_shares(bars))->0.units;
        let a = u + l + m - unit();
        let b = u + l - s;
        let w = k * (10 * k + 12);
        assert(a * k == u * k + l * k + m * k - k * unit()) by (nonlinear_arith)
            requires
                a == u + l + m - unit(),
        ;
        assert(b * k == u * k + l * k - s * k) by (nonlinear_arith)
            requires
                b == u + l - s,
        ;
        assert(-(3 * w + 140 * k) <= 2 * (a * k) <= 3 * w + 140 * k);
        assert(-(3 * w + 140 * k) <= 2 * (b * k) <= 3 * w + 140 * k);
        assert(3 * w + 140 * k == (30 * k + 176) * k) by (nonlinear_arith)
            requires
                w == k * (10 * k + 12),
        ;
        assert(-(30 * k + 176) <= 2 * a <= 30 * k + 176) by (nonlinear_arith)
            requires
                -((30 * k + 176) * k) <= 2 * (a * k) <= (30 * k + 176) * k,
                k > 0,
        ;
        assert(-(30 * k + 176) <= 2 * b <= 30 * k + 176) by (nonlinear_arith)
            requires
                -((30 * k + 176) * k) <= 2 * (b * k) <= (30 * k + 176) * k,
                k > 0,
        ;
    }
}

/// The exact sums of the shares of valid bars take up their ranges, up to 70
/// units for each bar.
proof fn lemma_exact_shares(bars: Seq<OhlcvBar>, n: int)
    requires
        0 <= n <= bars.len(),
        forall|i: int| 0 <= i < bars.len() ==> (#[trigger] bars[i]).is_valid(),
        forall|i: int| 0 <= i < bars.len() ==> (#[trigger] bars[i]).range_val() is Some,
    ensures
        ({
            let p = ranged_bars(bars);
            let k = tally(n, p);
            let upper = exact_total_where(n, p, upper_wick_shares(bars));
            let lower = exact_total_where(n, p, lower_wick_shares(bars));
            let body = exact_total_where(n, p, body_shares(bars));
            let shadow = exact_total_where(n, p, shadow_shares(bars));
            &&& within(upper + lower + body, k * unit(), 70 * k)
            &&& within(upper + lower, shadow, 70 * k)
        }),
    decreases n,
{
    if n > 0 {
        lemma_exact_shares(bars, n - 1);
        if ranged_bars(bars)(n - 1) {
            assert(bars[n - 1].is_valid() && bars[n - 1].range_val() is Some);
            parts_take_up_the_range(bars[n - 1]);
        }
    }
}

/// The mean distance from the close to the high of valid bars is not negative.
pub proof fn high_close_spread_is_not_negative(bars: Seq<OhlcvBar>)
    requires
        bars.len() > 0,
        forall|i: int| 0 <= i < bars.len() ==> (#[trigger] bars[i]).is_valid(),
        mean(bars.len() as int, high_to_closes(bars)) is Some,
    ensures
        mean(bars.len() as int, high_to_closes(bars))->0.units >= 0,
{
    let n = bars.len() as int;
    assert forall|i: int| 0 <= i < n implies (#[trigger] high_to_closes(bars)(i))->0.units >= 0 by {
        lemma_total_prefix(n, i, high_to_closes(bars));
        assert(bars[i].is_valid());
        differences_keep_order(bars[i].high@, bars[i].close@, bars[i].high@, bars[i].close@);
    }
    mean_of_nonnegative_is_nonnegative(n, high_to_closes(bars));
}

} // verus!
