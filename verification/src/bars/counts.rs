//! Counts and streaks over bars.

use crate::bar::{BarDirection, OhlcvBar};
use crate::bars::{
    any_gaps, close_above_averages, closes, complete_bars, direction_before, down_bars,
    falling_closes, falling_lows, gap_downs, gap_ups, high_averages, highs, lows, new_highs,
    new_lows, range_above, ranges, reversals, reversing_closes, reverts, reverts_to, rising_closes,
    rising_highs, up_bars, volume_above, volumes,
};
use crate::decimal::{hundredths, is_nought, magnitude, minus, over, Decimal};
use crate::series::{
    self, all_some, count_of, highest, longest_run, lowest, mean, run_at_end, tally, windows,
};
use vstd::prelude::*;
use vstd::slice::slice_subrange;

verus! {

impl OhlcvBar {
    /// Count of bullish bars (close > open) in a slice.
    pub fn bullish_count(bars: &[OhlcvBar]) -> (r: usize)
        ensures
            r == tally(bars@.len() as int, up_bars(bars@)),
    {
        series::count(
            bars,
            |b: &OhlcvBar| -> (r: bool)
                ensures
                    r == (b.close@ > b.open@)
            { b.is_bullish() },
            Ghost(up_bars(bars@)),
        )
    }

    /// Count of bearish bars (close < open) in a slice.
    pub fn bearish_count(bars: &[OhlcvBar]) -> (r: usize)
        ensures
            r == tally(bars@.len() as int, down_bars(bars@)),
    {
        series::count(
            bars,
            |b: &OhlcvBar| -> (r: bool)
                ensures
                    r == (b.close@ < b.open@)
            { b.is_bearish() },
            Ghost(down_bars(bars@)),
        )
    }

    /// Length of the current bullish streak at the end of `bars`.
    ///
    /// Counts consecutive bullish bars (`close > open`) from the tail of the
    /// slice. Returns `0` if the last bar is not bullish or the slice is empty.
    pub fn bullish_streak(bars: &[OhlcvBar]) -> (r: usize)
        ensures
            r == run_at_end(bars@.len() as int, up_bars(bars@)),
    {
        series::count_at_end(
            bars,
            |b: &OhlcvBar| -> (r: bool)
                ensures
                    r == (b.close@ > b.open@)
            { b.is_bullish() },
            Ghost(up_bars(bars@)),
        )
    }

    /// Length of the current bearish streak at the end of `bars`.
    ///
    /// Counts consecutive bearish bars (`close < open`) from the tail of the
    /// slice. Returns `0` if the last bar is not bearish or the slice is empty.
    pub fn bearish_streak(bars: &[OhlcvBar]) -> (r: usize)
        ensures
            r == run_at_end(bars@.len() as int, down_bars(bars@)),
    {
        series::count_at_end(
            bars,
            |b: &OhlcvBar| -> (r: bool)
                ensures
                    r == (b.close@ < b.open@)
            { b.is_bearish() },
            Ghost(down_bars(bars@)),
        )
    }

    /// Count of bars (from index 1 onward) whose close strictly exceeds the
    /// previous bar's high — i.e., upside breakout bars.
    pub fn breakout_count(bars: &[OhlcvBar]) -> (r: usize)
        ensures
            r == tally(windows(bars@.len(), 2), |i: int| bars@[i + 1].close@ > bars@[i].high@),
    {
        series::count_pairs(
            bars,
            |p: &OhlcvBar, b: &OhlcvBar| -> (r: bool)
                ensures
                    r == (b.close@ > p.high@)
            { b.close > p.high },
            Ghost(|i: int| bars@[i + 1].close@ > bars@[i].high@),
        )
    }

    /// Count of doji bars (|close − open| ≤ epsilon) in the slice.
    pub fn doji_count(bars: &[OhlcvBar], epsilon: Decimal) -> (r: usize)
        requires
            forall|i: int| 0 <= i < bars@.len() ==> (#[trigger] bars@[i]).body_val() is Some,
        ensures
            r == tally(bars@.len() as int, |i: int| bars@[i].body_val()->0.units <= epsilon@),
    {
        series::count(
            bars,
            |b: &OhlcvBar| -> (r: bool)
                requires
                    b.body_val() is Some,
                ensures
                    r == (b.body_val()->0.units <= epsilon@)
            { b.is_doji(epsilon) },
            Ghost(|i: int| bars@[i].body_val()->0.units <= epsilon@),
        )
    }

    /// Count of bars where close is strictly above the bar midpoint ((high + low) / 2).
    pub fn close_above_mid_count(bars: &[OhlcvBar]) -> (r: usize)
        requires
            forall|i: int|
                0 <= i < bars@.len() ==> (#[trigger] bars@[i]).median_price_val() is Some,
        ensures
            r == tally(
                bars@.len() as int,
                |i: int| bars@[i].close@ > bars@[i].median_price_val()->0.units,
            ),
    {
        series::count(
            bars,
            |b: &OhlcvBar| -> (r: bool)
                requires
                    b.median_price_val() is Some,
                ensures
                    r == (b.close@ > b.median_price_val()->0.units)
            { b.close > b.median_price() },
            Ghost(|i: int| bars@[i].close@ > bars@[i].median_price_val()->0.units),
        )
    }

    /// Count of bars (from index 1 onward) where close is strictly greater
    /// than the previous bar's close.
    pub fn rising_close_count(bars: &[OhlcvBar]) -> (r: usize)
        ensures
            r == tally(windows(bars@.len(), 2), rising_closes(bars@)),
    {
        series::count_pairs(
            bars,
            |p: &OhlcvBar, b: &OhlcvBar| -> (r: bool)
                ensures
                    r == (b.close@ > p.close@)
            { b.close > p.close },
            Ghost(rising_closes(bars@)),
        )
    }

    /// Counts consecutive-pair windows where a gap exists (open != prior close).
    pub fn gap_bars_count(bars: &[OhlcvBar]) -> (r: usize)
        ensures
            r == tally(windows(bars@.len(), 2), any_gaps(bars@)),
    {
        series::count_pairs(
            bars,
            |p: &OhlcvBar, b: &OhlcvBar| -> (r: bool)
                ensures
                    r == (b.open@ != p.close@)
            { b.open != p.close },
            Ghost(any_gaps(bars@)),
        )
    }

    /// Count of consecutive bars (from the end) where `high` is strictly higher than the
    /// prior `high`.
    pub fn consecutive_highs(bars: &[OhlcvBar]) -> (r: usize)
        ensures
            r == run_at_end(windows(bars@.len(), 2), rising_highs(bars@)),
    {
        series::count_at_end_pairs(
            bars,
            |p: &OhlcvBar, b: &OhlcvBar| -> (r: bool)
                ensures
                    r == (b.high@ > p.high@)
            { b.high > p.high },
            Ghost(rising_highs(bars@)),
        )
    }

    /// Count of consecutive bars (from the end) where `low` is strictly lower than the prior `low`.
    pub fn consecutive_lows(bars: &[OhlcvBar]) -> (r: usize)
        ensures
            r == run_at_end(windows(bars@.len(), 2), falling_lows(bars@)),
    {
        series::count_at_end_pairs(
            bars,
            |p: &OhlcvBar, b: &OhlcvBar| -> (r: bool)
                ensures
                    r == (b.low@ < p.low@)
            { b.low < p.low },
            Ghost(falling_lows(bars@)),
        )
    }

    /// Count of bars where `close > open` (bullish bars).
    pub fn close_above_open_count(bars: &[OhlcvBar]) -> (r: usize)
        ensures
            r == tally(bars@.len() as int, up_bars(bars@)),
    {
        series::count(
            bars,
            |b: &OhlcvBar| -> (r: bool)
                ensures
                    r == (b.close@ > b.open@)
            { b.close > b.open },
            Ghost(up_bars(bars@)),
        )
    }

    /// Count of bars where the range (high - low) exceeds the preceding bar's
    /// range (i.e., the bar "expands" relative to the prior bar).
    ///
    /// Returns 0 if fewer than 2 bars.
    pub fn range_expansion_count(bars: &[OhlcvBar]) -> (r: usize)
        requires
            forall|i: int| 1 <= i < bars@.len() ==> (#[trigger] bars@[i]).range_val() is Some,
            forall|i: int|
                0 <= i < windows(bars@.len(), 2) ==> (#[trigger] bars@[i]).range_val() is Some,
        ensures
            r == tally(
                windows(bars@.len(), 2),
                |i: int| bars@[i + 1].range_val()->0.units > bars@[i].range_val()->0.units,
            ),
    {
        series::count_pairs(
            bars,
            |p: &OhlcvBar, b: &OhlcvBar| -> (r: bool)
                requires
                    b.range_val() is Some,
                    p.range_val() is Some,
                ensures
                    r == (b.range_val()->0.units > p.range_val()->0.units)
            { b.range() > p.range() },
            Ghost(|i: int| bars@[i + 1].range_val()->0.units > bars@[i].range_val()->0.units),
        )
    }

    /// Count of bars where the open gaps away from the previous bar's close
    /// (absolute gap > zero, i.e., `open != prev_close`).
    pub fn gap_count(bars: &[OhlcvBar]) -> (r: usize)
        ensures
            r == tally(windows(bars@.len(), 2), any_gaps(bars@)),
    {
        Self::gap_bars_count(bars)
    }

    /// Longest run of consecutive bars with strictly rising closes.
    pub fn max_consecutive_gains(bars: &[OhlcvBar]) -> (r: usize)
        ensures
            r == longest_run(windows(bars@.len(), 2), rising_closes(bars@)),
    {
        series::longest_pairs(
            bars,
            |p: &OhlcvBar, b: &OhlcvBar| -> (r: bool)
                ensures
                    r == (b.close@ > p.close@)
            { b.close > p.close },
            Ghost(rising_closes(bars@)),
        )
    }

    /// Longest run of consecutive bars with strictly falling closes.
    pub fn max_consecutive_losses(bars: &[OhlcvBar]) -> (r: usize)
        ensures
            r == longest_run(windows(bars@.len(), 2), falling_closes(bars@)),
    {
        series::longest_pairs(
            bars,
            |p: &OhlcvBar, b: &OhlcvBar| -> (r: bool)
                ensures
                    r == (b.close@ < p.close@)
            { b.close < p.close },
            Ghost(falling_closes(bars@)),
        )
    }

    /// Count of bars where the high is strictly greater than the previous bar's high.
    ///
    /// Returns 0 if fewer than 2 bars.
    pub fn higher_highs_count(bars: &[OhlcvBar]) -> (r: usize)
        ensures
            r == tally(windows(bars@.len(), 2), rising_highs(bars@)),
    {
        series::count_pairs(
            bars,
            |p: &OhlcvBar, b: &OhlcvBar| -> (r: bool)
                ensures
                    r == (b.high@ > p.high@)
            { b.high > p.high },
            Ghost(rising_highs(bars@)),
        )
    }

    /// Count of bars where the low is strictly less than the previous bar's low.
    ///
    /// Returns 0 if fewer than 2 bars.
    pub fn lower_lows_count(bars: &[OhlcvBar]) -> (r: usize)
        ensures
            r == tally(windows(bars@.len(), 2), falling_lows(bars@)),
    {
        series::count_pairs(
            bars,
            |p: &OhlcvBar, b: &OhlcvBar| -> (r: bool)
                ensures
                    r == (b.low@ < p.low@)
            { b.low < p.low },
            Ghost(falling_lows(bars@)),
        )
    }

    /// Count of complete bars (where `is_complete == true`).
    pub fn complete_bar_count(bars: &[OhlcvBar]) -> (r: usize)
        ensures
            r == tally(bars@.len() as int, complete_bars(bars@)),
    {
        series::count(
            bars,
            |b: &OhlcvBar| -> (r: bool)
                ensures
                    r == (b.is_complete)
            { b.is_complete },
            Ghost(complete_bars(bars@)),
        )
    }

    /// Count of bars with `high == previous_bar.close` (gap-free continuation bars).
    pub fn continuation_bar_count(bars: &[OhlcvBar]) -> (r: usize)
        ensures
            r == tally(windows(bars@.len(), 2), |i: int| bars@[i + 1].high@ == bars@[i].close@),
    {
        series::count_pairs(
            bars,
            |p: &OhlcvBar, b: &OhlcvBar| -> (r: bool)
                ensures
                    r == (b.high@ == p.close@)
            { b.high == p.close },
            Ghost(|i: int| bars@[i + 1].high@ == bars@[i].close@),
        )
    }

    /// Count of bars where close is within 1% of the prior bar's close.
    ///
    /// Returns 0 for slices with fewer than 2 bars.
    pub fn close_cluster_count(bars: &[OhlcvBar]) -> (r: usize)
        requires
            forall|i: int|
                0 <= i < windows(bars@.len(), 2) ==> (#[trigger] bars@[i]).close@ != 0
                    ==> magnitude(
                        over(
                            minus(bars@[i + 1].close.val(), bars@[i].close.val()),
                            bars@[i].close.val(),
                        ),
                    ) is Some,
        ensures
            r == tally(
                windows(bars@.len(), 2),
                |i: int|
                    bars@[i].close@ != 0 && magnitude(
                        over(
                            minus(bars@[i + 1].close.val(), bars@[i].close.val()),
                            bars@[i].close.val(),
                        ),
                    )->0.units
                            <= hundredths(1)->0.units,
            ),
    {
        series::count_pairs(
            bars,
            |p: &OhlcvBar, b: &OhlcvBar| -> (r: bool)
                requires
                    p.close@ != 0
                        ==> magnitude(over(minus(b.close.val(), p.close.val()), p.close.val())) is Some,
                ensures
                    r == (
                        p.close@ != 0
                            && magnitude(over(minus(b.close.val(), p.close.val()), p.close.val()))->0.units
                                <= hundredths(1)->0.units
                    )
            {
                !p.close.is_zero() && ((b.close - p.close) / p.close).abs() <= Decimal::hundredths(1)
            },
            Ghost(
                |i: int|
                    bars@[i].close@ != 0 && magnitude(
                        over(minus(bars@[i + 1].close.val(), bars@[i].close.val()), bars@[i].close.val()),
                    )->0.units
                            <= hundredths(1)->0.units,
            ),
        )
    }

    /// Maximum run of consecutive bullish bars (`close > open`).
    ///
    /// Returns `0` for an empty slice.
    pub fn max_consecutive_up_bars(bars: &[OhlcvBar]) -> (r: usize)
        ensures
            r == longest_run(bars@.len() as int, up_bars(bars@)),
    {
        series::longest(
            bars,
            |b: &OhlcvBar| -> (r: bool)
                ensures
                    r == (b.close@ > b.open@)
            { b.close > b.open },
            Ghost(up_bars(bars@)),
        )
    }

    /// Count of bars where `open` is higher than the previous bar's `close` (gap-up).
    ///
    /// Returns `0` for fewer than 2 bars.
    pub fn gap_up_count(bars: &[OhlcvBar]) -> (r: usize)
        ensures
            r == tally(windows(bars@.len(), 2), gap_ups(bars@)),
    {
        series::count_pairs(
            bars,
            |p: &OhlcvBar, b: &OhlcvBar| -> (r: bool)
                ensures
                    r == (b.open@ > p.close@)
            { b.open > p.close },
            Ghost(gap_ups(bars@)),
        )
    }

    /// Count of bars where `open` is lower than the previous bar's `close` (gap-down).
    ///
    /// Returns `0` for fewer than 2 bars.
    pub fn gap_down_count(bars: &[OhlcvBar]) -> (r: usize)
        ensures
            r == tally(windows(bars@.len(), 2), gap_downs(bars@)),
    {
        series::count_pairs(
            bars,
            |p: &OhlcvBar, b: &OhlcvBar| -> (r: bool)
                ensures
                    r == (b.open@ < p.close@)
            { b.open < p.close },
            Ghost(gap_downs(bars@)),
        )
    }

    /// Length of the longest consecutive run of up-close bars (`close > open`).
    pub fn close_above_open_streak(bars: &[OhlcvBar]) -> (r: usize)
        ensures
            r == longest_run(bars@.len() as int, up_bars(bars@)),
    {
        Self::max_consecutive_up_bars(bars)
    }

    /// Length of the longest consecutive run of bars where `close < open`.
    /// Returns `None` for an empty slice.
    pub fn longest_bearish_streak(bars: &[OhlcvBar]) -> (r: Option<usize>)
        ensures
            count_of(r, bars@.len() > 0, longest_run(bars@.len() as int, down_bars(bars@))),
    {
        if bars.len() == 0 {
            return None;
        }
        Some(
            series::longest(
                bars,
                |b: &OhlcvBar| -> (r: bool)
                    ensures
                        r == (b.close@ < b.open@)
                { b.close < b.open },
                Ghost(down_bars(bars@)),
            ),
        )
    }

    /// Number of bars where `|close − open| / (high − low) < 0.1` (doji-like).
    ///
    /// A bar with no range counts as such.
    ///
    /// Returns `None` for an empty slice.
    pub fn narrow_body_count(bars: &[OhlcvBar]) -> (r: Option<usize>)
        requires
            forall|i: int| 0 <= i < bars@.len() ==> (#[trigger] bars@[i]).range_val() is Some,
            forall|i: int|
                0 <= i < bars@.len() ==> !is_nought((#[trigger] bars@[i]).range_val())
                    ==> over(bars@[i].body_val(), bars@[i].range_val()) is Some,
        ensures
            count_of(
                r,
                bars@.len() > 0,
                tally(
                    bars@.len() as int,
                    |i: int|
                        is_nought(bars@[i].range_val())
                            || over(bars@[i].body_val(), bars@[i].range_val())->0.units < hundredths(10)->0.units,
                ),
            ),
    {
        if bars.len() == 0 {
            return None;
        }
        Some(
            series::count(
                bars,
                |b: &OhlcvBar| -> (r: bool)
                    requires
                        b.range_val() is Some,
                        !is_nought(b.range_val()) ==> over(b.body_val(), b.range_val()) is Some,
                    ensures
                        r == (
                            is_nought(b.range_val())
                                || over(b.body_val(), b.range_val())->0.units < hundredths(10)->0.units
                        )
                { b.range().is_zero() || b.body() / b.range() < Decimal::hundredths(10) },
                Ghost(
                    |i: int|
                        is_nought(bars@[i].range_val())
                            || over(bars@[i].body_val(), bars@[i].range_val())->0.units < hundredths(10)->0.units,
                ),
            ),
        )
    }

    /// Number of bars with a downward gap (`open < prev_close`).
    /// Returns `None` for fewer than 2 bars.
    pub fn down_gap_count(bars: &[OhlcvBar]) -> (r: Option<usize>)
        ensures
            count_of(r, bars@.len() >= 2, tally(windows(bars@.len(), 2), gap_downs(bars@))),
    {
        if bars.len() < 2 {
            return None;
        }
        Some(
            series::count_pairs(
                bars,
                |p: &OhlcvBar, b: &OhlcvBar| -> (r: bool)
                    ensures
                        r == (b.open@ < p.close@)
                { b.open < p.close },
                Ghost(gap_downs(bars@)),
            ),
        )
    }

    /// Number of bars completely contained within the previous bar's range
    /// (inside bars: `high ≤ prev_high` and `low ≥ prev_low`).
    /// Returns `None` for fewer than 2 bars.
    pub fn inside_bar_count(bars: &[OhlcvBar]) -> (r: Option<usize>)
        ensures
            count_of(
                r,
                bars@.len() >= 2,
                tally(
                    windows(bars@.len(), 2),
                    |i: int|
                        bars@[i + 1].high@ <= bars@[i].high@ && bars@[i + 1].low@ >= bars@[i].low@,
                ),
            ),
    {
        if bars.len() < 2 {
            return None;
        }
        Some(
            series::count_pairs(
                bars,
                |p: &OhlcvBar, b: &OhlcvBar| -> (r: bool)
                    ensures
                        r == (b.high@ <= p.high@ && b.low@ >= p.low@)
                { b.high <= p.high && b.low >= p.low },
                Ghost(|i: int| bars@[i + 1].high@ <= bars@[i].high@ && bars@[i + 1].low@ >= bars@[i].low@),
            ),
        )
    }

    /// Number of consecutive bars at the end of the slice where
    /// `|close − open| / (high − low) < 0.05` (near-doji).
    ///
    /// A bar with no range counts as such.
    ///
    /// Returns `None` for an empty slice.
    pub fn consecutive_flat_count(bars: &[OhlcvBar]) -> (r: Option<usize>)
        requires
            forall|i: int| 0 <= i < bars@.len() ==> (#[trigger] bars@[i]).range_val() is Some,
            forall|i: int|
                0 <= i < bars@.len() ==> !is_nought((#[trigger] bars@[i]).range_val())
                    ==> over(bars@[i].body_val(), bars@[i].range_val()) is Some,
        ensures
            count_of(
                r,
                bars@.len() > 0,
                run_at_end(
                    bars@.len() as int,
                    |i: int|
                        is_nought(bars@[i].range_val())
                            || over(bars@[i].body_val(), bars@[i].range_val())->0.units < hundredths(5)->0.units,
                ),
            ),
    {
        if bars.len() == 0 {
            return None;
        }
        Some(
            series::count_at_end(
                bars,
                |b: &OhlcvBar| -> (r: bool)
                    requires
                        b.range_val() is Some,
                        !is_nought(b.range_val()) ==> over(b.body_val(), b.range_val()) is Some,
                    ensures
                        r
                            == (is_nought(b.range_val()) || over(b.body_val(), b.range_val())->0.units
                            < hundredths(5)->0.units)
                { b.range().is_zero() || b.body() / b.range() < Decimal::hundredths(5) },
                Ghost(
                    |i: int|
                        is_nought(bars@[i].range_val())
                            || over(bars@[i].body_val(), bars@[i].range_val())->0.units < hundredths(5)->0.units,
                ),
            ),
        )
    }

    /// Count of bullish engulfing candlestick patterns: a bearish bar followed
    /// by a bullish bar whose body fully engulfs the prior bar's body.
    /// Returns `None` for fewer than 2 bars.
    pub fn bullish_engulfing_count(bars: &[OhlcvBar]) -> (r: Option<usize>)
        ensures
            count_of(
                r,
                bars@.len() >= 2,
                tally(
                    windows(bars@.len(), 2),
                    |i: int|
                        bars@[i].open@ > bars@[i].close@ && bars@[i + 1].close@ > bars@[i + 1].open@
                            && bars@[i + 1].open@ <= bars@[i].close@
                            && bars@[i + 1].close@ >= bars@[i].open@,
                ),
            ),
    {
        if bars.len() < 2 {
            return None;
        }
        Some(
            series::count_pairs(
                bars,
                |p: &OhlcvBar, b: &OhlcvBar| -> (r: bool)
                    ensures
                        r
                            == (p.open@ > p.close@ && b.close@ > b.open@ && b.open@ <= p.close@ && b.close@ >= p.open@)
                { p.open > p.close && b.close > b.open && b.open <= p.close && b.close >= p.open },
                Ghost(
                    |i: int|
                        bars@[i].open@ > bars@[i].close@ && bars@[i + 1].close@ > bars@[i + 1].open@
                            && bars@[i + 1].open@ <= bars@[i].close@
                            && bars@[i + 1].close@ >= bars@[i].open@,
                ),
            ),
        )
    }

    /// Count of bars where the close re-enters the prior bar's range after
    /// gapping away (gap fill): prior bar gaps up/down and current close falls
    /// back inside the prior bar's high–low range.
    /// Returns `None` for fewer than 2 bars.
    pub fn gap_fill_count(bars: &[OhlcvBar]) -> (r: Option<usize>)
        ensures
            count_of(
                r,
                bars@.len() >= 2,
                tally(
                    windows(bars@.len(), 2),
                    |i: int|
                        (bars@[i + 1].open@ > bars@[i].high@ || bars@[i + 1].open@ < bars@[i].low@)
                            && bars@[i + 1].close@ <= bars@[i].high@
                            && bars@[i + 1].close@ >= bars@[i].low@,
                ),
            ),
    {
        if bars.len() < 2 {
            return None;
        }
        Some(
            series::count_pairs(
                bars,
                |p: &OhlcvBar, b: &OhlcvBar| -> (r: bool)
                    ensures
                        r == ((b.open@ > p.high@ || b.open@ < p.low@) && b.close@ <= p.high@ && b.close@ >= p.low@)
                { (b.open > p.high || b.open < p.low) && b.close <= p.high && b.close >= p.low },
                Ghost(
                    |i: int|
                        (bars@[i + 1].open@ > bars@[i].high@ || bars@[i + 1].open@ < bars@[i].low@)
                            && bars@[i + 1].close@ <= bars@[i].high@
                            && bars@[i + 1].close@ >= bars@[i].low@,
                ),
            ),
        )
    }

    /// Count of bars where close is above the bar's own midpoint `(high + low) / 2`.
    /// Returns `None` for an empty slice.
    pub fn close_above_midpoint_count(bars: &[OhlcvBar]) -> (r: Option<usize>)
        requires
            forall|i: int|
                0 <= i < bars@.len() ==> (#[trigger] bars@[i]).median_price_val() is Some,
        ensures
            count_of(
                r,
                bars@.len() > 0,
                tally(
                    bars@.len() as int,
                    |i: int| bars@[i].close@ > bars@[i].median_price_val()->0.units,
                ),
            ),
    {
        if bars.len() == 0 {
            return None;
        }
        Some(
            series::count(
                bars,
                |b: &OhlcvBar| -> (r: bool)
                    requires
                        b.median_price_val() is Some,
                    ensures
                        r == (b.close@ > b.median_price_val()->0.units)
                { b.close > b.median_price() },
                Ghost(|i: int| bars@[i].close@ > bars@[i].median_price_val()->0.units),
            ),
        )
    }

    /// Count of bars that gap up from the prior bar (open > prior high).
    /// Returns `None` for fewer than 2 bars.
    pub fn up_gap_count(bars: &[OhlcvBar]) -> (r: Option<usize>)
        ensures
            count_of(
                r,
                bars@.len() >= 2,
                tally(windows(bars@.len(), 2), |i: int| bars@[i + 1].open@ > bars@[i].high@),
            ),
    {
        if bars.len() < 2 {
            return None;
        }
        Some(
            series::count_pairs(
                bars,
                |p: &OhlcvBar, b: &OhlcvBar| -> (r: bool)
                    ensures
                        r == (b.open@ > p.high@)
                { b.open > p.high },
                Ghost(|i: int| bars@[i + 1].open@ > bars@[i].high@),
            ),
        )
    }

    /// Count of bars where close crossed through the prior bar's open price.
    /// Returns `None` for fewer than 2 bars.
    pub fn close_cross_open_count(bars: &[OhlcvBar]) -> (r: Option<usize>)
        ensures
            count_of(
                r,
                bars@.len() >= 2,
                tally(
                    windows(bars@.len(), 2),
                    |i: int|
                        bars@[i].close@ < bars@[i].open@ && bars@[i + 1].close@ >= bars@[i].open@
                            || bars@[i].close@ > bars@[i].open@
                                && bars@[i + 1].close@ <= bars@[i].open@,
                ),
            ),
    {
        if bars.len() < 2 {
            return None;
        }
        Some(
            series::count_pairs(
                bars,
                |p: &OhlcvBar, b: &OhlcvBar| -> (r: bool)
                    ensures
                        r
                            == (p.close@ < p.open@ && b.close@ >= p.open@ || p.close@ > p.open@ && b.close@ <= p.open@)
                { p.close < p.open && b.close >= p.open || p.close > p.open && b.close <= p.open },
                Ghost(
                    |i: int|
                        bars@[i].close@ < bars@[i].open@ && bars@[i + 1].close@ >= bars@[i].open@
                            || bars@[i].close@ > bars@[i].open@ && bars@[i + 1].close@ <= bars@[i].open@,
                ),
            ),
        )
    }

    /// Count of bars where open is above the prior bar's close (bullish gap-up open).
    /// Returns `None` for fewer than 2 bars.
    pub fn open_above_prev_close(bars: &[OhlcvBar]) -> (r: Option<usize>)
        ensures
            count_of(r, bars@.len() >= 2, tally(windows(bars@.len(), 2), gap_ups(bars@))),
    {
        if bars.len() < 2 {
            return None;
        }
        Some(
            series::count_pairs(
                bars,
                |p: &OhlcvBar, b: &OhlcvBar| -> (r: bool)
                    ensures
                        r == (b.open@ > p.close@)
                { b.open > p.close },
                Ghost(gap_ups(bars@)),
            ),
        )
    }

    /// Count of bars where close is below the prior bar's open.
    /// Returns `None` for fewer than 2 bars.
    pub fn close_below_prev_open(bars: &[OhlcvBar]) -> (r: Option<usize>)
        ensures
            count_of(
                r,
                bars@.len() >= 2,
                tally(windows(bars@.len(), 2), |i: int| bars@[i + 1].close@ < bars@[i].open@),
            ),
    {
        if bars.len() < 2 {
            return None;
        }
        Some(
            series::count_pairs(
                bars,
                |p: &OhlcvBar, b: &OhlcvBar| -> (r: bool)
                    ensures
                        r == (b.close@ < p.open@)
                { b.close < p.open },
                Ghost(|i: int| bars@[i + 1].close@ < bars@[i].open@),
            ),
        )
    }

    /// Count of times close oscillates (changes direction) across bars.
    pub fn close_oscillation_count(bars: &[OhlcvBar]) -> (r: Option<usize>)
        ensures
            count_of(r, bars@.len() >= 3, tally(windows(bars@.len(), 3), reversing_closes(bars@))),
    {
        if bars.len() < 3 {
            return None;
        }
        Some(
            series::count_triples(
                bars,
                |x: &OhlcvBar, y: &OhlcvBar, z: &OhlcvBar| -> (r: bool)
                    ensures
                        r == (
                            y.close@ > x.close@ && z.close@ < y.close@
                                || y.close@ < x.close@ && z.close@ > y.close@
                        )
                { y.close > x.close && z.close < y.close || y.close < x.close && z.close > y.close },
                Ghost(reversing_closes(bars@)),
            ),
        )
    }

    /// Bar body count: number of bars with non-zero body (close ≠ open).
    pub fn bar_body_count(bars: &[OhlcvBar]) -> (r: Option<usize>)
        ensures
            count_of(
                r,
                bars@.len() > 0,
                tally(bars@.len() as int, |i: int| bars@[i].close@ != bars@[i].open@),
            ),
    {
        if bars.len() == 0 {
            return None;
        }
        Some(
            series::count(
                bars,
                |b: &OhlcvBar| -> (r: bool)
                    ensures
                        r == (b.close@ != b.open@)
                { b.close != b.open },
                Ghost(|i: int| bars@[i].close@ != bars@[i].open@),
            ),
        )
    }

    /// Count of bars where volume strictly exceeds the slice average volume.
    ///
    /// Returns 0 for empty slices or when average volume cannot be computed.
    pub fn above_avg_volume_count(bars: &[OhlcvBar]) -> (r: usize)
        requires
            bars@.len() > 0 ==> mean(bars@.len() as int, volumes(bars@)) is Some,
        ensures
            ({
                let avg = mean(bars@.len() as int, volumes(bars@))->0.units;
                r == (if bars@.len() == 0 || avg == 0 {
                    0
                } else {
                    tally(bars@.len() as int, volume_above(bars@, avg))
                })
            }),
    {
        match Self::mean_volume(bars) {
            Some(avg) => {
                if avg.is_zero() {
                    0
                } else {
                    series::count(
                        bars,
                        |b: &OhlcvBar| -> (r: bool)
                            ensures
                                r == (b.volume@ > avg@)
                        { b.volume > avg },
                        Ghost(volume_above(bars@, avg@)),
                    )
                }
            },
            None => 0,
        }
    }

    /// Count of bars where volume exceeds the mean volume of the slice.
    /// Returns `None` for empty input.
    pub fn volume_above_avg_count(bars: &[OhlcvBar]) -> (r: Option<usize>)
        requires
            bars@.len() > 0 ==> mean(bars@.len() as int, volumes(bars@)) is Some,
        ensures
            count_of(
                r,
                bars@.len() > 0,
                tally(
                    bars@.len() as int,
                    volume_above(bars@, mean(bars@.len() as int, volumes(bars@))->0.units),
                ),
            ),
    {
        let mean_vol = Self::mean_volume(bars)?;
        Some(
            series::count(
                bars,
                |b: &OhlcvBar| -> (r: bool)
                    ensures
                        r == (b.volume@ > mean_vol@)
                { b.volume > mean_vol },
                Ghost(volume_above(bars@, mean_vol@)),
            ),
        )
    }

    /// Number of bars with a price range above the mean range.
    /// Returns `None` for an empty slice.
    pub fn bar_count_above_avg_range(bars: &[OhlcvBar]) -> (r: Option<usize>)
        requires
            all_some(bars@.len() as int, ranges(bars@)),
            bars@.len() > 0 ==> mean(bars@.len() as int, ranges(bars@)) is Some,
        ensures
            count_of(
                r,
                bars@.len() > 0,
                tally(
                    bars@.len() as int,
                    range_above(bars@, mean(bars@.len() as int, ranges(bars@))->0.units),
                ),
            ),
    {
        let mean_range = Self::mean_range(bars)?;
        assert forall|i: int| 0 <= i < bars@.len() implies (#[trigger] bars@[i]).range_val() is Some by {
            assert(ranges(bars@)(i) is Some);
        }
        Some(
            series::count(
                bars,
                |b: &OhlcvBar| -> (r: bool)
                    requires
                        b.range_val() is Some,
                    ensures
                        r == (b.range_val()->0.units > mean_range@)
                { b.range() > mean_range },
                Ghost(range_above(bars@, mean_range@)),
            ),
        )
    }

    /// Count of bars where `close > n`-bar simple moving average of highs: that of
    /// the bar and the `n - 1` bars before it.
    ///
    /// Returns 0 if `n < 1` or the slice has fewer than `n` bars.
    pub fn close_above_high_ma(bars: &[OhlcvBar], n: usize) -> (r: usize)
        requires
            n >= 1 ==> all_some(windows(bars@.len(), n as int), high_averages(bars@, n as int)),
        ensures
            r == (if n >= 1 {
                tally(windows(bars@.len(), n as int), close_above_averages(bars@, n as int))
            } else {
                0
            }),
    {
        if n < 1 || bars.len() < n {
            return 0;
        }
        let len: usize = bars.len();
        let last: usize = len - n;
        let mut count: usize = 0;
        let mut i: usize = 0;
        while i <= last
            invariant
                n >= 1,
                bars@.len() == len == last + n,
                count <= i <= last + 1,
                count == tally(i as int, close_above_averages(bars@, n as int)),
                all_some(last + 1, high_averages(bars@, n as int)),
            decreases last + 1 - i,
        {
            let window = slice_subrange(bars, i, i + n);
            assert(high_averages(bars@, n as int)(i as int) is Some);
            match Self::average_high(window) {
                Some(average) => {
                    if bars[i + n - 1].close > average {
                        count += 1;
                    }
                },
                None => {},
            }
            i += 1;
        }
        count
    }

    /// Count of bars where the close reverts toward the window mean (i.e., the
    /// bar's close is between the previous close and the window mean close).
    ///
    /// Returns 0 if fewer than 2 bars or no mean can be computed.
    pub fn close_reversion_count(bars: &[OhlcvBar]) -> (r: usize)
        requires
            bars@.len() > 0 ==> mean(bars@.len() as int, closes(bars@)) is Some,
        ensures
            r == tally(
                windows(bars@.len(), 2),
                reverts_to(bars@, mean(bars@.len() as int, closes(bars@))->0.units),
            ),
    {
        match Self::mean_close(bars) {
            None => 0,
            Some(mean) => series::count_pairs(
                bars,
                |p: &OhlcvBar, b: &OhlcvBar| -> (r: bool)
                    ensures
                        r == reverts(p.close@, b.close@, mean@)
                {
                    if p.close < mean {
                        b.close > p.close && b.close <= mean
                    } else {
                        b.close < p.close && b.close >= mean
                    }
                },
                Ghost(reverts_to(bars@, mean@)),
            ),
        }
    }

    /// Count of consecutive direction changes: how many times the bar
    /// sentiment (bullish / bearish) flips from one bar to the next.
    ///
    /// Doji bars (open == close) count as a continuation of the previous
    /// direction. Returns 0 for slices shorter than 2.
    pub fn direction_reversal_count(bars: &[OhlcvBar]) -> (r: usize)
        ensures
            r == tally(bars@.len() as int, reversals(bars@)),
    {
        let mut count: usize = 0;
        let mut prev = BarDirection::Neutral;
        let mut i: usize = 0;
        while i < bars.len()
            invariant
                count <= i <= bars@.len(),
                count == tally(i as int, reversals(bars@)),
                prev == direction_before(bars@, i as int),
            decreases bars@.len() - i,
        {
            let here = bars[i].body_direction();
            if here != BarDirection::Neutral {
                if prev != BarDirection::Neutral && here != prev {
                    count += 1;
                }
                prev = here;
            }
            i += 1;
        }
        count
    }

    /// Count of bars where `high` is strictly greater than all previous bar highs.
    pub fn new_high_count(bars: &[OhlcvBar]) -> (r: usize)
        ensures
            r == tally(bars@.len() as int, new_highs(bars@)),
    {
        if bars.len() == 0 {
            return 0;
        }
        let mut running = bars[0].high;
        let mut count: usize = 0;
        let mut i: usize = 1;
        assert(tally(0, new_highs(bars@)) == 0);
        while i < bars.len()
            invariant
                1 <= i <= bars@.len(),
                count <= i,
                count == tally(i as int, new_highs(bars@)),
                running.val() == highest(i as int, highs(bars@)),
            decreases bars@.len() - i,
        {
            if bars[i].high > running {
                count += 1;
                running = bars[i].high;
            }
            i += 1;
        }
        count
    }

    /// Count of bars where `low` is strictly less than all previous bar lows.
    pub fn new_low_count(bars: &[OhlcvBar]) -> (r: usize)
        ensures
            r == tally(bars@.len() as int, new_lows(bars@)),
    {
        if bars.len() == 0 {
            return 0;
        }
        let mut running = bars[0].low;
        let mut count: usize = 0;
        let mut i: usize = 1;
        assert(tally(0, new_lows(bars@)) == 0);
        while i < bars.len()
            invariant
                1 <= i <= bars@.len(),
                count <= i,
                count == tally(i as int, new_lows(bars@)),
                running.val() == lowest(i as int, lows(bars@)),
            decreases bars@.len() - i,
        {
            if bars[i].low < running {
                count += 1;
                running = bars[i].low;
            }
            i += 1;
        }
        count
    }

    /// Number of times the closing price direction reverses across consecutive bars.
    /// Returns `None` for fewer than 3 bars or no directional changes.
    pub fn price_oscillation_count(bars: &[OhlcvBar]) -> (r: Option<usize>)
        ensures
            ({
                let n = tally(windows(bars@.len(), 3), reversing_closes(bars@));
                count_of(r, n > 0, n)
            }),
    {
        match Self::close_oscillation_count(bars) {
            Some(n) => if n == 0 {
                None
            } else {
                Some(n)
            },
            None => None,
        }
    }

    /// Bar close momentum: sum of sign of close changes across consecutive bars.
    ///
    /// Returns `None` for fewer than 2 bars.
    pub fn bar_close_momentum(bars: &[OhlcvBar]) -> (r: Option<i128>)
        ensures
            match r {
                Some(n) => bars@.len() >= 2 && n == tally(
                    windows(bars@.len(), 2),
                    rising_closes(bars@),
                ) - tally(windows(bars@.len(), 2), falling_closes(bars@)),
                None => bars@.len() < 2,
            },
    {
        if bars.len() < 2 {
            return None;
        }
        let up: usize = Self::rising_close_count(bars);
        let down: usize = series::count_pairs(
            bars,
            |p: &OhlcvBar, b: &OhlcvBar| -> (r: bool)
                ensures
                    r == (b.close@ < p.close@)
            { b.close < p.close },
            Ghost(falling_closes(bars@)),
        );
        Some(up as i128 - down as i128)
    }

    /// Bar open-close momentum: sum of signs of (close - open) across bars.
    ///
    /// Returns `None` for an empty slice.
    pub fn bar_open_close_momentum(bars: &[OhlcvBar]) -> (r: Option<i128>)
        ensures
            match r {
                Some(n) => bars@.len() > 0 && n == tally(bars@.len() as int, up_bars(bars@))
                    - tally(bars@.len() as int, down_bars(bars@)),
                None => bars@.len() == 0,
            },
    {
        if bars.len() == 0 {
            return None;
        }
        Some(Self::bullish_count(bars) as i128 - Self::bearish_count(bars) as i128)
    }
}

} // verus!
