//! What can be read off a run of bars.
//!
//! The functions take bars in order, oldest first. What they state is stated over
//! the series that this module names: the value of each bar, or of each pair of
//! adjacent bars, at an index.

use crate::bar::{option_view, BarDirection, OhlcvBar};
use crate::decimal::{
    hundredths, is_nought, larger, magnitude, minus, over, over_or, plus, smaller, times, whole,
    Num,
};
use crate::series::{ascending, highest, last_highest, lowest, mean, tally, total, total_where};
use vstd::prelude::*;

pub mod averages;
pub mod counts;
pub mod deviations;
pub mod distributions;
pub mod extremes;
pub mod fractions;
pub mod laws;
pub mod patterns;
pub mod ratios;
pub mod readings;
pub mod run_laws;
pub mod samples;
pub mod totals;
pub mod trends;

verus! {

/// The opens of bars.
pub open spec fn opens(bars: Seq<OhlcvBar>) -> spec_fn(int) -> Option<Num> {
    |i: int| bars[i].open.val()
}

/// The highs of bars.
pub open spec fn highs(bars: Seq<OhlcvBar>) -> spec_fn(int) -> Option<Num> {
    |i: int| bars[i].high.val()
}

/// The lows of bars.
pub open spec fn lows(bars: Seq<OhlcvBar>) -> spec_fn(int) -> Option<Num> {
    |i: int| bars[i].low.val()
}

/// The closes of bars.
pub open spec fn closes(bars: Seq<OhlcvBar>) -> spec_fn(int) -> Option<Num> {
    |i: int| bars[i].close.val()
}

/// The volumes of bars.
pub open spec fn volumes(bars: Seq<OhlcvBar>) -> spec_fn(int) -> Option<Num> {
    |i: int| bars[i].volume.val()
}

/// The ranges of bars.
pub open spec fn ranges(bars: Seq<OhlcvBar>) -> spec_fn(int) -> Option<Num> {
    |i: int| bars[i].range_val()
}

/// The bodies of bars.
pub open spec fn bodies(bars: Seq<OhlcvBar>) -> spec_fn(int) -> Option<Num> {
    |i: int| bars[i].body_val()
}

/// The price changes of bars.
pub open spec fn price_changes(bars: Seq<OhlcvBar>) -> spec_fn(int) -> Option<Num> {
    |i: int| bars[i].price_change_val()
}

/// The typical prices of bars.
pub open spec fn typical_prices(bars: Seq<OhlcvBar>) -> spec_fn(int) -> Option<Num> {
    |i: int| bars[i].typical_price_val()
}

/// The wicks of bars, upper and lower together.
pub open spec fn wick_totals(bars: Seq<OhlcvBar>) -> spec_fn(int) -> Option<Num> {
    |i: int| plus(bars[i].wick_upper_val(), bars[i].wick_lower_val())
}

/// The distances from the closes of bars to their highs.
pub open spec fn high_to_closes(bars: Seq<OhlcvBar>) -> spec_fn(int) -> Option<Num> {
    |i: int| minus(bars[i].high.val(), bars[i].close.val())
}

/// The distances from the lows of bars to their closes.
pub open spec fn close_to_lows(bars: Seq<OhlcvBar>) -> spec_fn(int) -> Option<Num> {
    |i: int| minus(bars[i].close.val(), bars[i].low.val())
}

/// The lows of bars less their closes.
pub open spec fn low_to_closes(bars: Seq<OhlcvBar>) -> spec_fn(int) -> Option<Num> {
    |i: int| minus(bars[i].low.val(), bars[i].close.val())
}

/// The distances from the opens of bars to their highs.
pub open spec fn high_to_opens(bars: Seq<OhlcvBar>) -> spec_fn(int) -> Option<Num> {
    |i: int| minus(bars[i].high.val(), bars[i].open.val())
}

/// The lower wicks of bars.
pub open spec fn lower_wicks(bars: Seq<OhlcvBar>) -> spec_fn(int) -> Option<Num> {
    |i: int| bars[i].wick_lower_val()
}

/// The ranges of bars less their bodies.
pub open spec fn shadows(bars: Seq<OhlcvBar>) -> spec_fn(int) -> Option<Num> {
    |i: int| minus(bars[i].range_val(), bars[i].body_val())
}

/// The upward bodies of bars.
pub open spec fn up_moves(bars: Seq<OhlcvBar>) -> spec_fn(int) -> Option<Num> {
    |i: int| larger(minus(bars[i].close.val(), bars[i].open.val()), whole(0))
}

/// The downward bodies of bars.
pub open spec fn down_moves(bars: Seq<OhlcvBar>) -> spec_fn(int) -> Option<Num> {
    |i: int| larger(minus(bars[i].open.val(), bars[i].close.val()), whole(0))
}

/// The closes of bars times their volumes.
pub open spec fn close_values(bars: Seq<OhlcvBar>) -> spec_fn(int) -> Option<Num> {
    |i: int| times(bars[i].close.val(), bars[i].volume.val())
}

/// The opens of bars times their volumes.
pub open spec fn open_values(bars: Seq<OhlcvBar>) -> spec_fn(int) -> Option<Num> {
    |i: int| times(bars[i].open.val(), bars[i].volume.val())
}

/// The highs of bars times their volumes.
pub open spec fn high_values(bars: Seq<OhlcvBar>) -> spec_fn(int) -> Option<Num> {
    |i: int| times(bars[i].high.val(), bars[i].volume.val())
}

/// The midpoints of the bodies of bars.
pub open spec fn body_midpoints(bars: Seq<OhlcvBar>) -> spec_fn(int) -> Option<Num> {
    |i: int| over(plus(bars[i].open.val(), bars[i].close.val()), whole(2))
}

/// The true ranges of bars after the first.
pub open spec fn true_ranges(bars: Seq<OhlcvBar>) -> spec_fn(int) -> Option<Num> {
    |i: int| bars[i + 1].true_range_val(bars[i].close.num())
}

/// The gaps between bars: the open less the close before it.
pub open spec fn gaps(bars: Seq<OhlcvBar>) -> spec_fn(int) -> Option<Num> {
    |i: int| minus(bars[i + 1].open.val(), bars[i].close.val())
}

/// The sizes of the gaps between bars.
pub open spec fn gap_sizes(bars: Seq<OhlcvBar>) -> spec_fn(int) -> Option<Num> {
    |i: int| magnitude(minus(bars[i + 1].open.val(), bars[i].close.val()))
}

/// The changes of the close from bar to bar.
pub open spec fn close_changes(bars: Seq<OhlcvBar>) -> spec_fn(int) -> Option<Num> {
    |i: int| minus(bars[i + 1].close.val(), bars[i].close.val())
}

/// The sizes of the changes of the close from bar to bar.
pub open spec fn close_moves(bars: Seq<OhlcvBar>) -> spec_fn(int) -> Option<Num> {
    |i: int| magnitude(minus(bars[i + 1].close.val(), bars[i].close.val()))
}

/// The closes of bars less the open of the bar before.
pub open spec fn close_to_prev_opens(bars: Seq<OhlcvBar>) -> spec_fn(int) -> Option<Num> {
    |i: int| minus(bars[i + 1].close.val(), bars[i].open.val())
}

/// The sizes of the changes of the volume from bar to bar.
pub open spec fn volume_moves(bars: Seq<OhlcvBar>) -> spec_fn(int) -> Option<Num> {
    |i: int| magnitude(minus(bars[i + 1].volume.val(), bars[i].volume.val()))
}

/// The closes of bars less the lowest low of the bar and the two before it.
pub open spec fn stop_distances(bars: Seq<OhlcvBar>) -> spec_fn(int) -> Option<Num> {
    |i: int|
        minus(
            bars[i + 2].close.val(),
            smaller(smaller(bars[i].low.val(), bars[i + 1].low.val()), bars[i + 2].low.val()),
        )
}

/// Which bars close above their open.
pub open spec fn up_bars(bars: Seq<OhlcvBar>) -> spec_fn(int) -> bool {
    |i: int| bars[i].close@ > bars[i].open@
}

/// Which bars close below their open.
pub open spec fn down_bars(bars: Seq<OhlcvBar>) -> spec_fn(int) -> bool {
    |i: int| bars[i].close@ < bars[i].open@
}

/// Which bars close where they open.
pub open spec fn flat_bars(bars: Seq<OhlcvBar>) -> spec_fn(int) -> bool {
    |i: int| bars[i].open@ == bars[i].close@
}

/// Which bars are complete.
pub open spec fn complete_bars(bars: Seq<OhlcvBar>) -> spec_fn(int) -> bool {
    |i: int| bars[i].is_complete
}

/// Which bars after the first close above the close before.
pub open spec fn rising_closes(bars: Seq<OhlcvBar>) -> spec_fn(int) -> bool {
    |i: int| bars[i + 1].close@ > bars[i].close@
}

/// Which bars after the first close below the close before.
pub open spec fn falling_closes(bars: Seq<OhlcvBar>) -> spec_fn(int) -> bool {
    |i: int| bars[i + 1].close@ < bars[i].close@
}

/// Which bars after the first open above the close before.
pub open spec fn gap_ups(bars: Seq<OhlcvBar>) -> spec_fn(int) -> bool {
    |i: int| bars[i + 1].open@ > bars[i].close@
}

/// Which bars after the first open below the close before.
pub open spec fn gap_downs(bars: Seq<OhlcvBar>) -> spec_fn(int) -> bool {
    |i: int| bars[i + 1].open@ < bars[i].close@
}

/// Which bars after the first open elsewhere than at the close before.
pub open spec fn any_gaps(bars: Seq<OhlcvBar>) -> spec_fn(int) -> bool {
    |i: int| bars[i + 1].open@ != bars[i].close@
}

/// Which bars after the first have a high above the high before.
pub open spec fn rising_highs(bars: Seq<OhlcvBar>) -> spec_fn(int) -> bool {
    |i: int| bars[i + 1].high@ > bars[i].high@
}

/// Which bars after the first have a low below the low before.
pub open spec fn falling_lows(bars: Seq<OhlcvBar>) -> spec_fn(int) -> bool {
    |i: int| bars[i + 1].low@ < bars[i].low@
}

/// Which bars after the second close up after a rise or down after a fall.
pub open spec fn persisting_closes(bars: Seq<OhlcvBar>) -> spec_fn(int) -> bool {
    |i: int|
        (bars[i + 1].close@ > bars[i].close@ && bars[i + 2].close@ > bars[i + 1].close@) || (
        bars[i + 1].close@ < bars[i].close@ && bars[i + 2].close@ < bars[i + 1].close@)
}

/// Which bars after the second close down after a rise or up after a fall.
pub open spec fn reversing_closes(bars: Seq<OhlcvBar>) -> spec_fn(int) -> bool {
    |i: int|
        (bars[i + 1].close@ > bars[i].close@ && bars[i + 2].close@ < bars[i + 1].close@) || (
        bars[i + 1].close@ < bars[i].close@ && bars[i + 2].close@ > bars[i + 1].close@)
}

/// Which bars after the second move the close, as does the bar before.
pub open spec fn moving_closes(bars: Seq<OhlcvBar>) -> spec_fn(int) -> bool {
    |i: int|
        bars[i + 1].close@ != bars[i].close@ && bars[i + 2].close@ != bars[i + 1].close@
}

/// Which bars have an upper wick that is longer than the lower one.
pub open spec fn upper_wick_bars(bars: Seq<OhlcvBar>) -> spec_fn(int) -> bool {
    |i: int| bars[i].wick_upper_val()->0.units > bars[i].wick_lower_val()->0.units
}

/// Which bars have a lower wick that is longer than the upper one.
pub open spec fn lower_wick_bars(bars: Seq<OhlcvBar>) -> spec_fn(int) -> bool {
    |i: int| bars[i].wick_lower_val()->0.units > bars[i].wick_upper_val()->0.units
}

/// Which bars do not close below their open.
pub open spec fn not_down_bars(bars: Seq<OhlcvBar>) -> spec_fn(int) -> bool {
    |i: int| bars[i].close@ >= bars[i].open@
}

/// Which bars have a volume above a level.
pub open spec fn volume_above(bars: Seq<OhlcvBar>, level: int) -> spec_fn(int) -> bool {
    |i: int| bars[i].volume@ > level
}

/// Which bars have a close above a level.
pub open spec fn close_above(bars: Seq<OhlcvBar>, level: int) -> spec_fn(int) -> bool {
    |i: int| bars[i].close@ > level
}

/// Which bars have a close below a level.
pub open spec fn close_below(bars: Seq<OhlcvBar>, level: int) -> spec_fn(int) -> bool {
    |i: int| bars[i].close@ < level
}

/// Which bars have a range above a level.
pub open spec fn range_above(bars: Seq<OhlcvBar>, level: int) -> spec_fn(int) -> bool {
    |i: int| bars[i].range_val()->0.units > level
}

/// Which bars have a range below a level.
pub open spec fn range_below(bars: Seq<OhlcvBar>, level: int) -> spec_fn(int) -> bool {
    |i: int| bars[i].range_val()->0.units < level
}

/// Which bars have a volume-weighted average price.
pub open spec fn vwap_bars(bars: Seq<OhlcvBar>) -> spec_fn(int) -> bool {
    |i: int| bars[i].vwap is Some
}

/// The volume-weighted average prices of bars.
pub open spec fn vwaps(bars: Seq<OhlcvBar>) -> spec_fn(int) -> Option<Num> {
    |i: int| option_view(bars[i].vwap)
}

/// The number of bars that have a volume-weighted average price.
pub open spec fn has_vwap_count(bars: Seq<OhlcvBar>) -> int {
    tally(bars.len() as int, vwap_bars(bars))
}

/// The mean of the volume-weighted average prices of the bars that have one.
pub open spec fn mean_vwap_val(bars: Seq<OhlcvBar>) -> Option<Num> {
    over(
        total_where(bars.len() as int, vwap_bars(bars), vwaps(bars)),
        whole(has_vwap_count(bars)),
    )
}

/// The closes of bars weighted by volume.
pub open spec fn weighted_close_val(bars: Seq<OhlcvBar>) -> Option<Num> {
    over(
        total(bars.len() as int, close_values(bars)),
        total(bars.len() as int, volumes(bars)),
    )
}

/// The distances of the closes of bars from a price.
pub open spec fn close_deviations(bars: Seq<OhlcvBar>, price: Num) -> spec_fn(int) -> Option<Num> {
    |i: int| magnitude(minus(bars[i].close.val(), Some(price)))
}

/// The volumes of bars over a volume.
pub open spec fn volume_shares(bars: Seq<OhlcvBar>, volume: Num) -> spec_fn(int) -> Option<Num> {
    |i: int| over(bars[i].volume.val(), Some(volume))
}

/// Which bars have a range.
pub open spec fn ranged_bars(bars: Seq<OhlcvBar>) -> spec_fn(int) -> bool {
    |i: int| !is_nought(bars[i].range_val())
}

/// The direction of the bodies of bars up to the one before `n`: that of the
/// last body that has one.
pub open spec fn direction_before(bars: Seq<OhlcvBar>, n: int) -> BarDirection
    decreases n,
{
    if n <= 0 {
        BarDirection::Neutral
    } else if bars[n - 1].close@ > bars[n - 1].open@ {
        BarDirection::Bullish
    } else if bars[n - 1].close@ < bars[n - 1].open@ {
        BarDirection::Bearish
    } else {
        direction_before(bars, n - 1)
    }
}

/// Which bars turn the direction round.
pub open spec fn reversals(bars: Seq<OhlcvBar>) -> spec_fn(int) -> bool {
    |i: int|
        direction_before(bars, i) != BarDirection::Neutral && direction_before(bars, i)
            != direction_before(bars, i + 1)
}

/// Which bars have a high above all highs before, the first one apart.
pub open spec fn new_highs(bars: Seq<OhlcvBar>) -> spec_fn(int) -> bool {
    |i: int| i > 0 && highest(i, highs(bars))->0.units < bars[i].high@
}

/// Which bars have a low below all lows before, the first one apart.
pub open spec fn new_lows(bars: Seq<OhlcvBar>) -> spec_fn(int) -> bool {
    |i: int| i > 0 && lowest(i, lows(bars))->0.units > bars[i].low@
}

/// The largest decline of the close from the highest close before it, as a
/// fraction of the latter, over the first `n` bars.
pub open spec fn drawdown(bars: Seq<OhlcvBar>, n: int) -> Option<Num>
    decreases n,
{
    if n <= 1 {
        whole(0)
    } else {
        let peak = highest(n - 1, closes(bars));
        let close = bars[n - 1].close;
        if close@ > peak->0.units || peak->0.units == 0 {
            drawdown(bars, n - 1)
        } else {
            larger(drawdown(bars, n - 1), over(minus(peak, close.val()), peak))
        }
    }
}

/// The sum of the ticks of bars.
pub open spec fn ticks(bars: Seq<OhlcvBar>, n: int) -> int
    decreases n,
{
    if n <= 0 {
        0
    } else {
        ticks(bars, n - 1) + bars[n - 1].trade_count
    }
}

/// The sum of the durations of bars, in milliseconds.
pub open spec fn millis(bars: Seq<OhlcvBar>, n: int) -> int
    decreases n,
{
    if n <= 0 {
        0
    } else {
        millis(bars, n - 1) + bars[n - 1].timeframe.millis()
    }
}

/// Whether a close lies between the close before and a mean, nearer to the mean.
pub open spec fn reverts(prev: int, close: int, mean: int) -> bool {
    if prev < mean {
        prev < close <= mean
    } else {
        mean <= close < prev
    }
}

/// Which bars after the first revert to a mean.
pub open spec fn reverts_to(bars: Seq<OhlcvBar>, mean: int) -> spec_fn(int) -> bool {
    |i: int| reverts(bars[i].close@, bars[i + 1].close@, mean)
}

/// Whether a bar has the highest volume of all, and is the latest such bar.
pub open spec fn is_highest_volume(bars: Seq<OhlcvBar>, i: int) -> bool {
    &&& 0 <= i < bars.len()
    &&& forall|j: int|
        0 <= j < bars.len() ==> (#[trigger] bars[j]).volume@ <= bars[i].volume@
    &&& forall|j: int| i < j < bars.len() ==> (#[trigger] bars[j]).volume@ < bars[i].volume@
}

/// Whether a bar has the lowest volume of all, and is the earliest such bar.
pub open spec fn is_lowest_volume(bars: Seq<OhlcvBar>, i: int) -> bool {
    &&& 0 <= i < bars.len()
    &&& forall|j: int|
        0 <= j < bars.len() ==> (#[trigger] bars[j]).volume@ >= bars[i].volume@
    &&& forall|j: int| 0 <= j < i ==> (#[trigger] bars[j]).volume@ > bars[i].volume@
}

/// Whether the bar after index `i` opens above the close at `i`, which is not
/// zero.
pub open spec fn gaps_up(bars: Seq<OhlcvBar>, i: int) -> bool {
    &&& 0 <= i < bars.len() - 1
    &&& minus(bars[i + 1].open.val(), bars[i].close.val())->0.units > 0
    &&& bars[i].close@ != 0
}

/// The gap after index `i` as a fraction of the close at `i`.
pub open spec fn relative_gap(bars: Seq<OhlcvBar>, i: int) -> Option<Num> {
    over(minus(bars[i + 1].open.val(), bars[i].close.val()), bars[i].close.val())
}

/// The distance from the lowest low to the highest high.
pub open spec fn channel(bars: Seq<OhlcvBar>) -> Option<Num> {
    minus(highest(bars.len() as int, highs(bars)), lowest(bars.len() as int, lows(bars)))
}

/// The distance from the lowest close to the highest close.
pub open spec fn close_span(bars: Seq<OhlcvBar>) -> Option<Num> {
    minus(highest(bars.len() as int, closes(bars)), lowest(bars.len() as int, closes(bars)))
}

/// The middle between the highest and the lowest volume.
pub open spec fn middle_volume(bars: Seq<OhlcvBar>) -> Option<Num> {
    over(
        plus(last_highest(bars.len() as int, volumes(bars)), lowest(bars.len() as int, volumes(bars))),
        whole(2),
    )
}

/// The shares of the wicks in the ranges of bars.
pub open spec fn wick_shares(bars: Seq<OhlcvBar>) -> spec_fn(int) -> Option<Num> {
    |i: int| over(plus(bars[i].wick_upper_val(), bars[i].wick_lower_val()), bars[i].range_val())
}

/// The shares of the bodies in the ranges of bars.
pub open spec fn body_shares(bars: Seq<OhlcvBar>) -> spec_fn(int) -> Option<Num> {
    |i: int| over(bars[i].body_val(), bars[i].range_val())
}

/// The shares of the upper wicks in the ranges of bars.
pub open spec fn upper_wick_shares(bars: Seq<OhlcvBar>) -> spec_fn(int) -> Option<Num> {
    |i: int| over(bars[i].wick_upper_val(), bars[i].range_val())
}

/// The shares of the lower wicks in the ranges of bars.
pub open spec fn lower_wick_shares(bars: Seq<OhlcvBar>) -> spec_fn(int) -> Option<Num> {
    |i: int| over(bars[i].wick_lower_val(), bars[i].range_val())
}

/// The positions of the closes of bars in their ranges, from the low.
pub open spec fn close_positions(bars: Seq<OhlcvBar>) -> spec_fn(int) -> Option<Num> {
    |i: int| over(minus(bars[i].close.val(), bars[i].low.val()), bars[i].range_val())
}

/// The positions of the opens of bars in their ranges, from the low.
pub open spec fn open_positions(bars: Seq<OhlcvBar>) -> spec_fn(int) -> Option<Num> {
    |i: int| over(minus(bars[i].open.val(), bars[i].low.val()), bars[i].range_val())
}

/// The distances from the opens of bars to their highs, as shares of the ranges.
pub open spec fn open_to_high_shares(bars: Seq<OhlcvBar>) -> spec_fn(int) -> Option<Num> {
    |i: int| over(minus(bars[i].high.val(), bars[i].open.val()), bars[i].range_val())
}

/// The distances from the closes of bars to their highs, as shares of the ranges.
pub open spec fn close_to_high_shares(bars: Seq<OhlcvBar>) -> spec_fn(int) -> Option<Num> {
    |i: int| over(minus(bars[i].high.val(), bars[i].close.val()), bars[i].range_val())
}

/// The price changes of bars as shares of their ranges.
pub open spec fn signed_body_shares(bars: Seq<OhlcvBar>) -> spec_fn(int) -> Option<Num> {
    |i: int| over(bars[i].price_change_val(), bars[i].range_val())
}

/// What the bodies of bars leave of their ranges, as shares of the ranges.
pub open spec fn shadow_shares(bars: Seq<OhlcvBar>) -> spec_fn(int) -> Option<Num> {
    |i: int| over(minus(bars[i].range_val(), bars[i].body_val()), bars[i].range_val())
}

/// The volumes of bars per unit of range.
pub open spec fn volumes_per_range(bars: Seq<OhlcvBar>) -> spec_fn(int) -> Option<Num> {
    |i: int| over(bars[i].volume.val(), bars[i].range_val())
}

/// The distances of the closes of bars from the midpoints, as shares of the ranges.
pub open spec fn midpoint_offsets(bars: Seq<OhlcvBar>) -> spec_fn(int) -> Option<Num> {
    |i: int| over(minus(bars[i].close.val(), bars[i].median_price_val()), bars[i].range_val())
}

/// The distances of the midpoints of bars from the opens, as shares of the ranges.
pub open spec fn midpoint_leads(bars: Seq<OhlcvBar>) -> spec_fn(int) -> Option<Num> {
    |i: int| over(minus(bars[i].median_price_val(), bars[i].open.val()), bars[i].range_val())
}

/// How far the bodies of bars reach above the midpoints, as shares of the ranges.
pub open spec fn upper_body_shares(bars: Seq<OhlcvBar>) -> spec_fn(int) -> Option<Num> {
    |i: int|
        over(
            larger(minus(bars[i].body_high_val(), bars[i].median_price_val()), whole(0)),
            bars[i].range_val(),
        )
}

/// The upper wicks of bars less the lower ones, as shares of the ranges.
pub open spec fn wick_imbalances(bars: Seq<OhlcvBar>) -> spec_fn(int) -> Option<Num> {
    |i: int| over(minus(bars[i].wick_upper_val(), bars[i].wick_lower_val()), bars[i].range_val())
}

/// The differences of the wicks of bars as shares of the ranges.
pub open spec fn wick_asymmetries(bars: Seq<OhlcvBar>) -> spec_fn(int) -> Option<Num> {
    |i: int|
        over(
            magnitude(minus(bars[i].wick_upper_val(), bars[i].wick_lower_val())),
            bars[i].range_val(),
        )
}

/// One less the differences of the wicks of bars as shares of the ranges.
pub open spec fn wick_balances(bars: Seq<OhlcvBar>) -> spec_fn(int) -> Option<Num> {
    |i: int|
        minus(
            whole(1),
            over(
                magnitude(minus(bars[i].wick_upper_val(), bars[i].wick_lower_val())),
                bars[i].range_val(),
            ),
        )
}

/// One less the shares of the bodies in the ranges of bars.
pub open spec fn body_slacks(bars: Seq<OhlcvBar>) -> spec_fn(int) -> Option<Num> {
    |i: int| minus(whole(1), over(bars[i].body_val(), bars[i].range_val()))
}

/// The close location values of bars.
pub open spec fn close_locations(bars: Seq<OhlcvBar>) -> spec_fn(int) -> Option<Num> {
    |i: int| bars[i].close_location_val()
}

/// The price changes of bars over their opens.
pub open spec fn bar_returns(bars: Seq<OhlcvBar>) -> spec_fn(int) -> Option<Num> {
    |i: int| over(bars[i].price_change_val(), bars[i].open.val())
}

/// The price changes of bars in percent of their opens.
pub open spec fn percent_returns(bars: Seq<OhlcvBar>) -> spec_fn(int) -> Option<Num> {
    |i: int| times(over(bars[i].price_change_val(), bars[i].open.val()), whole(100))
}

/// The volumes of bars over their opens.
pub open spec fn volumes_per_open(bars: Seq<OhlcvBar>) -> spec_fn(int) -> Option<Num> {
    |i: int| over(bars[i].volume.val(), bars[i].open.val())
}

/// The ranges of bars over their opens.
pub open spec fn ranges_per_open(bars: Seq<OhlcvBar>) -> spec_fn(int) -> Option<Num> {
    |i: int| over(bars[i].range_val(), bars[i].open.val())
}

/// The bodies of bars over their opens.
pub open spec fn bodies_per_open(bars: Seq<OhlcvBar>) -> spec_fn(int) -> Option<Num> {
    |i: int| over(bars[i].body_val(), bars[i].open.val())
}

/// The distances from the opens of bars to their highs, over the opens.
pub open spec fn high_to_open_returns(bars: Seq<OhlcvBar>) -> spec_fn(int) -> Option<Num> {
    |i: int| over(minus(bars[i].high.val(), bars[i].open.val()), bars[i].open.val())
}

/// The highs of bars over their lows.
pub open spec fn high_low_ratios(bars: Seq<OhlcvBar>) -> spec_fn(int) -> Option<Num> {
    |i: int| over(bars[i].high.val(), bars[i].low.val())
}

/// The highs of bars over their lows, less one.
pub open spec fn high_low_excesses(bars: Seq<OhlcvBar>) -> spec_fn(int) -> Option<Num> {
    |i: int| minus(over(bars[i].high.val(), bars[i].low.val()), whole(1))
}

/// The wicks of bars over their bodies.
pub open spec fn wicks_per_body(bars: Seq<OhlcvBar>) -> spec_fn(int) -> Option<Num> {
    |i: int| over(plus(bars[i].wick_upper_val(), bars[i].wick_lower_val()), bars[i].body_val())
}

/// The upper wicks of bars over their bodies.
pub open spec fn upper_wicks_per_body(bars: Seq<OhlcvBar>) -> spec_fn(int) -> Option<Num> {
    |i: int| over(bars[i].wick_upper_val(), bars[i].body_val())
}

/// The ranges of bars over their closes.
pub open spec fn ranges_per_close(bars: Seq<OhlcvBar>) -> spec_fn(int) -> Option<Num> {
    |i: int| over(bars[i].range_val(), bars[i].close.val())
}

/// The distances from the opens of bars to their highs, over the highs.
pub open spec fn open_to_high_ratios(bars: Seq<OhlcvBar>) -> spec_fn(int) -> Option<Num> {
    |i: int| over(minus(bars[i].high.val(), bars[i].open.val()), bars[i].high.val())
}

/// The bodies of bars over their volumes.
pub open spec fn bodies_per_volume(bars: Seq<OhlcvBar>) -> spec_fn(int) -> Option<Num> {
    |i: int| over(bars[i].body_val(), bars[i].volume.val())
}

/// The ranges of bars over their volumes.
pub open spec fn ranges_per_volume(bars: Seq<OhlcvBar>) -> spec_fn(int) -> Option<Num> {
    |i: int| over(bars[i].range_val(), bars[i].volume.val())
}

/// The upper wicks of bars over the lower ones.
pub open spec fn wick_ratios(bars: Seq<OhlcvBar>) -> spec_fn(int) -> Option<Num> {
    |i: int| over(bars[i].wick_upper_val(), bars[i].wick_lower_val())
}

/// The shorter wicks of bars over the longer ones.
pub open spec fn wick_symmetries(bars: Seq<OhlcvBar>) -> spec_fn(int) -> Option<Num> {
    |i: int|
        over(
            smaller(bars[i].wick_upper_val(), bars[i].wick_lower_val()),
            larger(bars[i].wick_upper_val(), bars[i].wick_lower_val()),
        )
}

/// The gaps between bars over the close before.
pub open spec fn relative_gaps(bars: Seq<OhlcvBar>) -> spec_fn(int) -> Option<Num> {
    |i: int| over(minus(bars[i + 1].open.val(), bars[i].close.val()), bars[i].close.val())
}

/// The sizes of the gaps between bars over the close before.
pub open spec fn relative_gap_sizes(bars: Seq<OhlcvBar>) -> spec_fn(int) -> Option<Num> {
    |i: int|
        over(magnitude(minus(bars[i + 1].open.val(), bars[i].close.val())), bars[i].close.val())
}

/// The distances from the close before to the highs of bars, over the close before.
pub open spec fn relative_high_moves(bars: Seq<OhlcvBar>) -> spec_fn(int) -> Option<Num> {
    |i: int| over(minus(bars[i + 1].high.val(), bars[i].close.val()), bars[i].close.val())
}

/// The sizes of the changes of the close over the close before.
pub open spec fn relative_close_moves(bars: Seq<OhlcvBar>) -> spec_fn(int) -> Option<Num> {
    |i: int|
        over(magnitude(minus(bars[i + 1].close.val(), bars[i].close.val())), bars[i].close.val())
}

/// The changes of the close over the close before.
pub open spec fn relative_close_changes(bars: Seq<OhlcvBar>) -> spec_fn(int) -> Option<Num> {
    |i: int| over(minus(bars[i + 1].close.val(), bars[i].close.val()), bars[i].close.val())
}

/// The changes of the volume from bar to bar.
pub open spec fn volume_changes(bars: Seq<OhlcvBar>) -> spec_fn(int) -> Option<Num> {
    |i: int| minus(bars[i + 1].volume.val(), bars[i].volume.val())
}

/// The changes of the range from bar to bar.
pub open spec fn range_changes(bars: Seq<OhlcvBar>) -> spec_fn(int) -> Option<Num> {
    |i: int| minus(bars[i + 1].range_val(), bars[i].range_val())
}

/// The changes of the high from bar to bar.
pub open spec fn high_changes(bars: Seq<OhlcvBar>) -> spec_fn(int) -> Option<Num> {
    |i: int| minus(bars[i + 1].high.val(), bars[i].high.val())
}

/// The changes of the low from bar to bar.
pub open spec fn low_changes(bars: Seq<OhlcvBar>) -> spec_fn(int) -> Option<Num> {
    |i: int| minus(bars[i + 1].low.val(), bars[i].low.val())
}

/// The changes of the midpoint from bar to bar.
pub open spec fn midpoint_changes(bars: Seq<OhlcvBar>) -> spec_fn(int) -> Option<Num> {
    |i: int| minus(bars[i + 1].median_price_val(), bars[i].median_price_val())
}

/// The changes of the change of the close from bar to bar.
pub open spec fn close_accelerations(bars: Seq<OhlcvBar>) -> spec_fn(int) -> Option<Num> {
    |i: int|
        plus(
            minus(bars[i + 2].close.val(), times(bars[i + 1].close.val(), whole(2))),
            bars[i].close.val(),
        )
}

/// The shares of the bodies in the ranges of bars, and zero where there is no range.
pub open spec fn body_shares_or_zero(bars: Seq<OhlcvBar>) -> spec_fn(int) -> Option<Num> {
    |i: int| over_or(bars[i].body_val(), bars[i].range_val(), whole(0))
}

/// The positions of the closes of bars in their ranges, and a half where there is no range.
pub open spec fn close_positions_or_half(bars: Seq<OhlcvBar>) -> spec_fn(int) -> Option<Num> {
    |i: int|
        over_or(minus(bars[i].close.val(), bars[i].low.val()), bars[i].range_val(), hundredths(50))
}

/// The positions of the opens of bars in their ranges, and a half where there is no range.
pub open spec fn open_positions_or_half(bars: Seq<OhlcvBar>) -> spec_fn(int) -> Option<Num> {
    |i: int|
        over_or(minus(bars[i].open.val(), bars[i].low.val()), bars[i].range_val(), hundredths(50))
}

/// The shares of the upper wicks in the ranges of bars, and a half where there is no range.
pub open spec fn upper_wick_shares_or_half(bars: Seq<OhlcvBar>) -> spec_fn(int) -> Option<Num> {
    |i: int| over_or(bars[i].wick_upper_val(), bars[i].range_val(), hundredths(50))
}

/// The ranges of bars over their opens, and zero where the open is zero.
pub open spec fn ranges_per_open_or_zero(bars: Seq<OhlcvBar>) -> spec_fn(int) -> Option<Num> {
    |i: int| over_or(bars[i].range_val(), bars[i].open.val(), whole(0))
}

/// The opens of bars over their midpoints, and one where the midpoint is zero.
pub open spec fn opens_per_midpoint_or_one(bars: Seq<OhlcvBar>) -> spec_fn(int) -> Option<Num> {
    |i: int| over_or(bars[i].open.val(), bars[i].median_price_val(), whole(1))
}

/// The ranges of bars over the midpoints of their bodies, and zero where the midpoint is
/// zero.
pub open spec fn ranges_per_body_midpoint_or_zero(bars: Seq<OhlcvBar>) -> spec_fn(int) -> Option<Num> {
    |i: int|
        over_or(
            bars[i].range_val(),
            over(plus(bars[i].open.val(), bars[i].close.val()), whole(2)),
            whole(0),
        )
}

/// The ranges of bars over the close before, and zero where that is zero.
pub open spec fn ranges_per_prior_close_or_zero(bars: Seq<OhlcvBar>) -> spec_fn(int) -> Option<Num> {
    |i: int| over_or(bars[i + 1].range_val(), bars[i].close.val(), whole(0))
}

/// Which bars have a high above their low.
pub open spec fn upright_bars(bars: Seq<OhlcvBar>) -> spec_fn(int) -> bool {
    |i: int| bars[i].high@ > bars[i].low@
}

/// Which bars have an open that is not zero.
pub open spec fn nonzero_opens(bars: Seq<OhlcvBar>) -> spec_fn(int) -> bool {
    |i: int| bars[i].open@ != 0
}

/// Which bars have a high that is not zero.
pub open spec fn nonzero_highs(bars: Seq<OhlcvBar>) -> spec_fn(int) -> bool {
    |i: int| bars[i].high@ != 0
}

/// Which bars have a low that is not zero.
pub open spec fn nonzero_lows(bars: Seq<OhlcvBar>) -> spec_fn(int) -> bool {
    |i: int| bars[i].low@ != 0
}

/// Which bars have a close that is not zero.
pub open spec fn nonzero_closes(bars: Seq<OhlcvBar>) -> spec_fn(int) -> bool {
    |i: int| bars[i].close@ != 0
}

/// Which bars have a volume that is not zero.
pub open spec fn nonzero_volumes(bars: Seq<OhlcvBar>) -> spec_fn(int) -> bool {
    |i: int| bars[i].volume@ != 0
}

/// Which bars have a body that is not zero.
pub open spec fn nonzero_bodies(bars: Seq<OhlcvBar>) -> spec_fn(int) -> bool {
    |i: int| !is_nought(bars[i].body_val())
}

/// Which bars close elsewhere than they open.
pub open spec fn moving_bars(bars: Seq<OhlcvBar>) -> spec_fn(int) -> bool {
    |i: int| bars[i].close@ != bars[i].open@
}

/// Which bars have two wicks that are not zero.
pub open spec fn two_wick_bars(bars: Seq<OhlcvBar>) -> spec_fn(int) -> bool {
    |i: int| !is_nought(bars[i].wick_upper_val()) && !is_nought(bars[i].wick_lower_val())
}

/// Which bars have a longer wick that is not zero.
pub open spec fn wicked_bars(bars: Seq<OhlcvBar>) -> spec_fn(int) -> bool {
    |i: int| !is_nought(larger(bars[i].wick_upper_val(), bars[i].wick_lower_val()))
}

/// Which bars come after a close that is not zero.
pub open spec fn nonzero_prior_closes(bars: Seq<OhlcvBar>) -> spec_fn(int) -> bool {
    |i: int| bars[i].close@ != 0
}

/// Which bars after the first have a volume below the volume before.
pub open spec fn falling_volumes(bars: Seq<OhlcvBar>) -> spec_fn(int) -> bool {
    |i: int| bars[i + 1].volume@ < bars[i].volume@
}

/// The ranges of bars times their volumes.
pub open spec fn range_volumes(bars: Seq<OhlcvBar>) -> spec_fn(int) -> Option<Num> {
    |i: int| times(bars[i].range_val(), bars[i].volume.val())
}

/// The changes of the close from bar to bar times the volume of the later bar.
pub open spec fn close_change_values(bars: Seq<OhlcvBar>) -> spec_fn(int) -> Option<Num> {
    |i: int| times(minus(bars[i + 1].close.val(), bars[i].close.val()), bars[i + 1].volume.val())
}

/// The volumes of bars after the first.
pub open spec fn later_volumes(bars: Seq<OhlcvBar>) -> spec_fn(int) -> Option<Num> {
    |i: int| bars[i + 1].volume.val()
}

/// The distances of the ranges of bars from a length.
pub open spec fn range_deviations(bars: Seq<OhlcvBar>, length: Num) -> spec_fn(int) -> Option<Num> {
    |i: int| magnitude(minus(bars[i].range_val(), Some(length)))
}

/// The distances of the volume-weighted average prices of bars from a price.
pub open spec fn vwap_deviations(bars: Seq<OhlcvBar>, price: Num) -> spec_fn(int) -> Option<Num> {
    |i: int| magnitude(minus(option_view(bars[i].vwap), Some(price)))
}

/// The means of the highs of `n` adjacent bars.
pub open spec fn high_averages(bars: Seq<OhlcvBar>, n: int) -> spec_fn(int) -> Option<Num> {
    |i: int| mean(n, highs(bars.subrange(i, i + n)))
}

/// Which runs of `n` adjacent bars end with a close above the mean of their highs.
pub open spec fn close_above_averages(bars: Seq<OhlcvBar>, n: int) -> spec_fn(int) -> bool {
    |i: int| bars[i + n - 1].close@ > high_averages(bars, n)(i)->0.units
}

/// The last `n` bars.
pub open spec fn last_bars(bars: Seq<OhlcvBar>, n: int) -> Seq<OhlcvBar> {
    bars.subrange(bars.len() - n, bars.len() as int)
}

/// The highest volumes of bars in ascending order: those of a third of the bars,
/// but of one at least.
pub open spec fn top_volumes(bars: Seq<OhlcvBar>) -> Seq<Num> {
    let n = bars.len() as int;
    let third = if n >= 3 {
        n / 3
    } else {
        1
    };
    ascending(n, volumes(bars)).skip(n - third)
}

} // verus!
