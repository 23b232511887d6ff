//! Sums and means over bars.

use crate::bar::{option_view, OhlcvBar};
use crate::bars::{
    bodies, closes, down_bars, gaps, has_vwap_count, high_to_closes, high_to_opens, highs,
    lower_wicks, lows, mean_vwap_val, not_down_bars, opens, price_changes, ranges, shadows,
    true_ranges, typical_prices, up_bars, volumes, vwap_bars, vwaps, wick_totals,
};
use crate::decimal::{minus, plus, yields, Decimal};
use crate::series::{self, mean, total, total_where, windows};
use vstd::prelude::*;
use vstd::slice::slice_subrange;

verus! {

impl OhlcvBar {
    /// Total traded volume across a slice of bars.
    ///
    /// Returns zero for an empty slice. Complements
    /// [`mean_volume`](Self::mean_volume) when the sum rather than the average
    /// is needed.
    pub fn sum_volume(bars: &[OhlcvBar]) -> (r: Decimal)
        requires
            total(bars@.len() as int, volumes(bars@)) is Some,
        ensures
            r.val() == total(bars@.len() as int, volumes(bars@)),
    {
        series::add_up(
            bars,
            |b: &OhlcvBar| -> (d: Decimal)
                ensures
                    d.val() == b.volume.val()
            { b.volume },
            Ghost(volumes(bars@)),
        )
    }

    /// Mean volume across a slice of bars.
    ///
    /// Returns `None` if the slice is empty.
    pub fn mean_volume(bars: &[OhlcvBar]) -> (r: Option<Decimal>)
        requires
            bars@.len() > 0 ==> mean(bars@.len() as int, volumes(bars@)) is Some,
        ensures
            yields(r, bars@.len() > 0, mean(bars@.len() as int, volumes(bars@))),
    {
        if bars.len() == 0 {
            return None;
        }
        let sum = series::add_up(
            bars,
            |b: &OhlcvBar| -> (d: Decimal)
                ensures
                    d.val() == b.volume.val()
            { b.volume },
            Ghost(volumes(bars@)),
        );
        Some(sum / Decimal::count(bars.len() as u64))
    }

    /// Average true range (ATR) across a slice of consecutive bars.
    ///
    /// Computes the mean of [`true_range`](Self::true_range) for bars `[1..]`,
    /// using each bar's predecessor as the previous close. Returns `None` if
    /// the slice has fewer than 2 bars.
    pub fn average_true_range(bars: &[OhlcvBar]) -> (r: Option<Decimal>)
        requires
            bars@.len() >= 2 ==> mean(windows(bars@.len(), 2), true_ranges(bars@)) is Some,
        ensures
            yields(r, bars@.len() >= 2, mean(windows(bars@.len(), 2), true_ranges(bars@))),
    {
        if bars.len() < 2 {
            return None;
        }
        let sum = series::add_up_pairs(
            bars,
            |p: &OhlcvBar, b: &OhlcvBar| -> (d: Decimal)
                requires
                    b.true_range_val(p.close.num()) is Some,
                ensures
                    d.val() == b.true_range_val(p.close.num())
            { b.true_range(p.close) },
            Ghost(true_ranges(bars@)),
        );
        Some(sum / Decimal::count((bars.len() - 1) as u64))
    }

    /// Average body size across a slice of bars: mean of [`body`](Self::body) for each bar.
    ///
    /// Returns `None` if the slice is empty.
    pub fn average_body(bars: &[OhlcvBar]) -> (r: Option<Decimal>)
        requires
            bars@.len() > 0 ==> mean(bars@.len() as int, bodies(bars@)) is Some,
        ensures
            yields(r, bars@.len() > 0, mean(bars@.len() as int, bodies(bars@))),
    {
        if bars.len() == 0 {
            return None;
        }
        let sum = series::add_up(
            bars,
            |b: &OhlcvBar| -> (d: Decimal)
                requires
                    b.body_val() is Some,
                ensures
                    d.val() == b.body_val()
            { b.body() },
            Ghost(bodies(bars@)),
        );
        Some(sum / Decimal::count(bars.len() as u64))
    }

    /// Arithmetic mean of close prices across a slice of bars.
    ///
    /// Returns `None` if the slice is empty.
    pub fn mean_close(bars: &[OhlcvBar]) -> (r: Option<Decimal>)
        requires
            bars@.len() > 0 ==> mean(bars@.len() as int, closes(bars@)) is Some,
        ensures
            yields(r, bars@.len() > 0, mean(bars@.len() as int, closes(bars@))),
    {
        if bars.len() == 0 {
            return None;
        }
        let sum = series::add_up(
            bars,
            |b: &OhlcvBar| -> (d: Decimal)
                ensures
                    d.val() == b.close.val()
            { b.close },
            Ghost(closes(bars@)),
        );
        Some(sum / Decimal::count(bars.len() as u64))
    }

    /// Mean of the high-low range (H − L) across the slice.
    ///
    /// Returns `None` if the slice is empty.
    pub fn mean_range(bars: &[OhlcvBar]) -> (r: Option<Decimal>)
        requires
            bars@.len() > 0 ==> mean(bars@.len() as int, ranges(bars@)) is Some,
        ensures
            yields(r, bars@.len() > 0, mean(bars@.len() as int, ranges(bars@))),
    {
        if bars.len() == 0 {
            return None;
        }
        let sum = series::add_up(
            bars,
            |b: &OhlcvBar| -> (d: Decimal)
                requires
                    b.range_val() is Some,
                ensures
                    d.val() == b.range_val()
            { b.range() },
            Ghost(ranges(bars@)),
        );
        Some(sum / Decimal::count(bars.len() as u64))
    }

    /// Mean of the high prices across the slice.
    ///
    /// Returns `None` if the slice is empty.
    pub fn average_high(bars: &[OhlcvBar]) -> (r: Option<Decimal>)
        requires
            bars@.len() > 0 ==> mean(bars@.len() as int, highs(bars@)) is Some,
        ensures
            yields(r, bars@.len() > 0, mean(bars@.len() as int, highs(bars@))),
    {
        if bars.len() == 0 {
            return None;
        }
        let sum = series::add_up(
            bars,
            |b: &OhlcvBar| -> (d: Decimal)
                ensures
                    d.val() == b.high.val()
            { b.high },
            Ghost(highs(bars@)),
        );
        Some(sum / Decimal::count(bars.len() as u64))
    }

    /// Mean of the low prices across the slice.
    ///
    /// Returns `None` if the slice is empty.
    pub fn average_low(bars: &[OhlcvBar]) -> (r: Option<Decimal>)
        requires
            bars@.len() > 0 ==> mean(bars@.len() as int, lows(bars@)) is Some,
        ensures
            yields(r, bars@.len() > 0, mean(bars@.len() as int, lows(bars@))),
    {
        if bars.len() == 0 {
            return None;
        }
        let sum = series::add_up(
            bars,
            |b: &OhlcvBar| -> (d: Decimal)
                ensures
                    d.val() == b.low.val()
            { b.low },
            Ghost(lows(bars@)),
        );
        Some(sum / Decimal::count(bars.len() as u64))
    }

    /// Total volume of all bullish (close ≥ open) bars in the slice.
    pub fn bullish_volume(bars: &[OhlcvBar]) -> (r: Decimal)
        requires
            total_where(bars@.len() as int, not_down_bars(bars@), volumes(bars@)) is Some,
        ensures
            r.val() == total_where(bars@.len() as int, not_down_bars(bars@), volumes(bars@)),
    {
        series::add_up_where(
            bars,
            |b: &OhlcvBar| -> (r: bool)
                ensures
                    r == (b.close@ >= b.open@)
            { b.close >= b.open },
            |b: &OhlcvBar| -> (d: Decimal)
                ensures
                    d.val() == b.volume.val()
            { b.volume },
            Ghost(not_down_bars(bars@)),
            Ghost(volumes(bars@)),
        )
    }

    /// Total volume of all bearish (close < open) bars in the slice.
    pub fn bearish_volume(bars: &[OhlcvBar]) -> (r: Decimal)
        requires
            total_where(bars@.len() as int, down_bars(bars@), volumes(bars@)) is Some,
        ensures
            r.val() == total_where(bars@.len() as int, down_bars(bars@), volumes(bars@)),
    {
        series::add_up_where(
            bars,
            |b: &OhlcvBar| -> (r: bool)
                ensures
                    r == (b.close@ < b.open@)
            { b.close < b.open },
            |b: &OhlcvBar| -> (d: Decimal)
                ensures
                    d.val() == b.volume.val()
            { b.volume },
            Ghost(down_bars(bars@)),
            Ghost(volumes(bars@)),
        )
    }

    /// Sum of gap-open amounts: Σ (open[n] − close[n−1]) for n ≥ 1.
    ///
    /// A positive value indicates upward gaps dominate; negative means downward.
    pub fn gap_sum(bars: &[OhlcvBar]) -> (r: Decimal)
        requires
            total(windows(bars@.len(), 2), gaps(bars@)) is Some,
        ensures
            r.val() == total(windows(bars@.len(), 2), gaps(bars@)),
    {
        series::add_up_pairs(
            bars,
            |p: &OhlcvBar, b: &OhlcvBar| -> (d: Decimal)
                requires
                    minus(b.open.val(), p.close.val()) is Some,
                ensures
                    d.val() == minus(b.open.val(), p.close.val())
            { b.open - p.close },
            Ghost(gaps(bars@)),
        )
    }

    /// Sum of upper and lower wick lengths for each bar.
    ///
    /// Upper wick = `high - close.max(open)`, lower wick = `close.min(open) - low`.
    pub fn wicks_sum(bars: &[OhlcvBar]) -> (r: Decimal)
        requires
            total(bars@.len() as int, wick_totals(bars@)) is Some,
        ensures
            r.val() == total(bars@.len() as int, wick_totals(bars@)),
    {
        series::add_up(
            bars,
            |b: &OhlcvBar| -> (d: Decimal)
                requires
                    plus(b.wick_upper_val(), b.wick_lower_val()) is Some,
                ensures
                    d.val() == plus(b.wick_upper_val(), b.wick_lower_val())
            { b.wick_upper() + b.wick_lower() },
            Ghost(wick_totals(bars@)),
        )
    }

    /// Cumulative volume across all bars.
    pub fn volume_cumulative(bars: &[OhlcvBar]) -> (r: Decimal)
        requires
            total(bars@.len() as int, volumes(bars@)) is Some,
        ensures
            r.val() == total(bars@.len() as int, volumes(bars@)),
    {
        Self::sum_volume(bars)
    }

    /// Mean typical price `(high + low + close) / 3` across the slice.
    ///
    /// The typical price is a common single-value summary of a bar used
    /// in pivot-point and money-flow calculations. Returns `None` if empty.
    pub fn mean_typical_price(bars: &[OhlcvBar]) -> (r: Option<Decimal>)
        requires
            bars@.len() > 0 ==> mean(bars@.len() as int, typical_prices(bars@)) is Some,
        ensures
            yields(r, bars@.len() > 0, mean(bars@.len() as int, typical_prices(bars@))),
    {
        if bars.len() == 0 {
            return None;
        }
        let sum = series::add_up(
            bars,
            |b: &OhlcvBar| -> (d: Decimal)
                requires
                    b.typical_price_val() is Some,
                ensures
                    d.val() == b.typical_price_val()
            { b.typical_price() },
            Ghost(typical_prices(bars@)),
        );
        Some(sum / Decimal::count(bars.len() as u64))
    }

    /// Net body momentum: sum of signed body sizes across all bars.
    ///
    /// Bullish bars contribute `+(close − open)`; bearish bars contribute
    /// `−(open − close)`; flat bars contribute `0`. A positive total
    /// indicates the bars collectively closed higher than they opened.
    pub fn body_momentum(bars: &[OhlcvBar]) -> (r: Decimal)
        requires
            total(bars@.len() as int, price_changes(bars@)) is Some,
        ensures
            r.val() == total(bars@.len() as int, price_changes(bars@)),
    {
        series::add_up(
            bars,
            |b: &OhlcvBar| -> (d: Decimal)
                requires
                    b.price_change_val() is Some,
                ensures
                    d.val() == b.price_change_val()
            { b.price_change() },
            Ghost(price_changes(bars@)),
        )
    }

    /// Mean of `high − low` across bars. Returns `None` if the slice is empty.
    pub fn avg_bar_range(bars: &[OhlcvBar]) -> (r: Option<Decimal>)
        requires
            bars@.len() > 0 ==> mean(bars@.len() as int, ranges(bars@)) is Some,
        ensures
            yields(r, bars@.len() > 0, mean(bars@.len() as int, ranges(bars@))),
    {
        Self::mean_range(bars)
    }

    /// Sum of all close prices across the slice.
    ///
    /// Useful as a component in rolling sum-based indicators.
    /// Returns zero for an empty slice.
    pub fn close_sum(bars: &[OhlcvBar]) -> (r: Decimal)
        requires
            total(bars@.len() as int, closes(bars@)) is Some,
        ensures
            r.val() == total(bars@.len() as int, closes(bars@)),
    {
        series::add_up(
            bars,
            |b: &OhlcvBar| -> (d: Decimal)
                ensures
                    d.val() == b.close.val()
            { b.close },
            Ghost(closes(bars@)),
        )
    }

    /// Sum of typical prices `(high + low + close) / 3` across bars.
    pub fn typical_price_sum(bars: &[OhlcvBar]) -> (r: Decimal)
        requires
            total(bars@.len() as int, typical_prices(bars@)) is Some,
        ensures
            r.val() == total(bars@.len() as int, typical_prices(bars@)),
    {
        series::add_up(
            bars,
            |b: &OhlcvBar| -> (d: Decimal)
                requires
                    b.typical_price_val() is Some,
                ensures
                    d.val() == b.typical_price_val()
            { b.typical_price() },
            Ghost(typical_prices(bars@)),
        )
    }

    /// `high − low` summed across all bars; total accumulated range.
    pub fn total_range(bars: &[OhlcvBar]) -> (r: Decimal)
        requires
            total(bars@.len() as int, ranges(bars@)) is Some,
        ensures
            r.val() == total(bars@.len() as int, ranges(bars@)),
    {
        series::add_up(
            bars,
            |b: &OhlcvBar| -> (d: Decimal)
                requires
                    b.range_val() is Some,
                ensures
                    d.val() == b.range_val()
            { b.range() },
            Ghost(ranges(bars@)),
        )
    }

    /// Sum of bar volumes where the bar was a down-close.
    pub fn down_close_volume(bars: &[OhlcvBar]) -> (r: Decimal)
        requires
            total_where(bars@.len() as int, down_bars(bars@), volumes(bars@)) is Some,
        ensures
            r.val() == total_where(bars@.len() as int, down_bars(bars@), volumes(bars@)),
    {
        Self::bearish_volume(bars)
    }

    /// Sum of bar volumes where the bar was an up-close.
    pub fn up_close_volume(bars: &[OhlcvBar]) -> (r: Decimal)
        requires
            total_where(bars@.len() as int, up_bars(bars@), volumes(bars@)) is Some,
        ensures
            r.val() == total_where(bars@.len() as int, up_bars(bars@), volumes(bars@)),
    {
        series::add_up_where(
            bars,
            |b: &OhlcvBar| -> (r: bool)
                ensures
                    r == (b.close@ > b.open@)
            { b.close > b.open },
            |b: &OhlcvBar| -> (d: Decimal)
                ensures
                    d.val() == b.volume.val()
            { b.volume },
            Ghost(up_bars(bars@)),
            Ghost(volumes(bars@)),
        )
    }

    /// Mean open price across bars. Returns `None` if the slice is empty.
    pub fn mean_open(bars: &[OhlcvBar]) -> (r: Option<Decimal>)
        requires
            bars@.len() > 0 ==> mean(bars@.len() as int, opens(bars@)) is Some,
        ensures
            yields(r, bars@.len() > 0, mean(bars@.len() as int, opens(bars@))),
    {
        if bars.len() == 0 {
            return None;
        }
        let sum = series::add_up(
            bars,
            |b: &OhlcvBar| -> (d: Decimal)
                ensures
                    d.val() == b.open.val()
            { b.open },
            Ghost(opens(bars@)),
        );
        Some(sum / Decimal::count(bars.len() as u64))
    }

    /// Mean of (close − open) across all bars.  Positive means net bullish drift.
    pub fn avg_open_to_close(bars: &[OhlcvBar]) -> (r: Option<Decimal>)
        requires
            bars@.len() > 0 ==> mean(bars@.len() as int, price_changes(bars@)) is Some,
        ensures
            yields(r, bars@.len() > 0, mean(bars@.len() as int, price_changes(bars@))),
    {
        if bars.len() == 0 {
            return None;
        }
        let sum = series::add_up(
            bars,
            |b: &OhlcvBar| -> (d: Decimal)
                requires
                    b.price_change_val() is Some,
                ensures
                    d.val() == b.price_change_val()
            { b.price_change() },
            Ghost(price_changes(bars@)),
        );
        Some(sum / Decimal::count(bars.len() as u64))
    }

    /// Sum of `(close − open).abs()` across all bars; total body movement.
    pub fn total_body_movement(bars: &[OhlcvBar]) -> (r: Decimal)
        requires
            total(bars@.len() as int, bodies(bars@)) is Some,
        ensures
            r.val() == total(bars@.len() as int, bodies(bars@)),
    {
        series::add_up(
            bars,
            |b: &OhlcvBar| -> (d: Decimal)
                requires
                    b.body_val() is Some,
                ensures
                    d.val() == b.body_val()
            { b.body() },
            Ghost(bodies(bars@)),
        )
    }

    /// Mean of `(high - close)` across all bars — average distance from close to high.
    ///
    /// Returns `None` for an empty slice.
    pub fn avg_close_to_high(bars: &[OhlcvBar]) -> (r: Option<Decimal>)
        requires
            bars@.len() > 0 ==> mean(bars@.len() as int, high_to_closes(bars@)) is Some,
        ensures
            yields(r, bars@.len() > 0, mean(bars@.len() as int, high_to_closes(bars@))),
    {
        if bars.len() == 0 {
            return None;
        }
        let sum = series::add_up(
            bars,
            |b: &OhlcvBar| -> (d: Decimal)
                requires
                    minus(b.high.val(), b.close.val()) is Some,
                ensures
                    d.val() == minus(b.high.val(), b.close.val())
            { b.high - b.close },
            Ghost(high_to_closes(bars@)),
        );
        Some(sum / Decimal::count(bars.len() as u64))
    }

    /// Mean of `(high - low)` across all bars.
    ///
    /// Returns `None` for an empty slice.
    pub fn avg_range(bars: &[OhlcvBar]) -> (r: Option<Decimal>)
        requires
            bars@.len() > 0 ==> mean(bars@.len() as int, ranges(bars@)) is Some,
        ensures
            yields(r, bars@.len() > 0, mean(bars@.len() as int, ranges(bars@))),
    {
        Self::mean_range(bars)
    }

    /// Mean of `high - open` across all bars.
    /// Returns `None` for an empty slice.
    pub fn high_minus_open_mean(bars: &[OhlcvBar]) -> (r: Option<Decimal>)
        requires
            bars@.len() > 0 ==> mean(bars@.len() as int, high_to_opens(bars@)) is Some,
        ensures
            yields(r, bars@.len() > 0, mean(bars@.len() as int, high_to_opens(bars@))),
    {
        if bars.len() == 0 {
            return None;
        }
        let sum = series::add_up(
            bars,
            |b: &OhlcvBar| -> (d: Decimal)
                requires
                    minus(b.high.val(), b.open.val()) is Some,
                ensures
                    d.val() == minus(b.high.val(), b.open.val())
            { b.high - b.open },
            Ghost(high_to_opens(bars@)),
        );
        Some(sum / Decimal::count(bars.len() as u64))
    }

    /// Mean of `min(open, close) - low` (lower tail / lower wick) across all bars.
    /// Returns `None` for an empty slice.
    pub fn low_minus_close_mean(bars: &[OhlcvBar]) -> (r: Option<Decimal>)
        requires
            bars@.len() > 0 ==> mean(bars@.len() as int, lower_wicks(bars@)) is Some,
        ensures
            yields(r, bars@.len() > 0, mean(bars@.len() as int, lower_wicks(bars@))),
    {
        if bars.len() == 0 {
            return None;
        }
        let sum = series::add_up(
            bars,
            |b: &OhlcvBar| -> (d: Decimal)
                requires
                    b.wick_lower_val() is Some,
                ensures
                    d.val() == b.wick_lower_val()
            { b.wick_lower() },
            Ghost(lower_wicks(bars@)),
        );
        Some(sum / Decimal::count(bars.len() as u64))
    }

    /// Mean total shadow length `(high - low) - |close - open|` across bars.
    /// Returns `None` for an empty slice.
    pub fn avg_shadow_total(bars: &[OhlcvBar]) -> (r: Option<Decimal>)
        requires
            bars@.len() > 0 ==> mean(bars@.len() as int, shadows(bars@)) is Some,
        ensures
            yields(r, bars@.len() > 0, mean(bars@.len() as int, shadows(bars@))),
    {
        if bars.len() == 0 {
            return None;
        }
        let sum = series::add_up(
            bars,
            |b: &OhlcvBar| -> (d: Decimal)
                requires
                    minus(b.range_val(), b.body_val()) is Some,
                ensures
                    d.val() == minus(b.range_val(), b.body_val())
            { b.range() - b.body() },
            Ghost(shadows(bars@)),
        );
        Some(sum / Decimal::count(bars.len() as u64))
    }

    /// Mean of `|close - open|` across all bars (mean absolute candle body size).
    /// Returns `None` for an empty slice.
    pub fn open_close_range(bars: &[OhlcvBar]) -> (r: Option<Decimal>)
        requires
            bars@.len() > 0 ==> mean(bars@.len() as int, bodies(bars@)) is Some,
        ensures
            yields(r, bars@.len() > 0, mean(bars@.len() as int, bodies(bars@))),
    {
        Self::average_body(bars)
    }

    /// Mean volume per bar.
    /// Returns `None` for an empty slice.
    pub fn volume_per_bar(bars: &[OhlcvBar]) -> (r: Option<Decimal>)
        requires
            bars@.len() > 0 ==> mean(bars@.len() as int, volumes(bars@)) is Some,
        ensures
            yields(r, bars@.len() > 0, mean(bars@.len() as int, volumes(bars@))),
    {
        Self::mean_volume(bars)
    }

    /// Simple moving average of the last `n` close prices.
    ///
    /// Returns `None` if `n` is zero or the slice has fewer than `n` bars.
    pub fn sma(bars: &[OhlcvBar], n: usize) -> (r: Option<Decimal>)
        requires
            0 < n <= bars@.len() ==> mean(
                n as int,
                closes(bars@.subrange(bars@.len() - n, bars@.len() as int)),
            ) is Some,
        ensures
            yields(
                r,
                0 < n <= bars@.len(),
                mean(n as int, closes(bars@.subrange(bars@.len() - n, bars@.len() as int))),
            ),
    {
        if n == 0 || bars.len() < n {
            return None;
        }
        Self::mean_close(slice_subrange(bars, bars.len() - n, bars.len()))
    }

    /// Mean of `vwap` values across bars that have a VWAP computed.
    ///
    /// Returns `None` for empty slices or when no bars have a VWAP.
    pub fn mean_vwap(bars: &[OhlcvBar]) -> (r: Option<Decimal>)
        requires
            has_vwap_count(bars@) > 0 ==> mean_vwap_val(bars@) is Some,
            total_where(bars@.len() as int, vwap_bars(bars@), vwaps(bars@)) is Some,
        ensures
            yields(r, has_vwap_count(bars@) > 0, mean_vwap_val(bars@)),
    {
        let n: usize = series::count(
            bars,
            |b: &OhlcvBar| -> (r: bool)
                ensures
                    r == b.vwap is Some
            { b.vwap.is_some() },
            Ghost(vwap_bars(bars@)),
        );
        if n == 0 {
            return None;
        }
        let sum = series::add_up_where(
            bars,
            |b: &OhlcvBar| -> (r: bool)
                ensures
                    r == b.vwap is Some
            { b.vwap.is_some() },
            |b: &OhlcvBar| -> (d: Decimal)
                requires
                    b.vwap is Some,
                ensures
                    d.val() == option_view(b.vwap)
            { b.vwap.unwrap() },
            Ghost(vwap_bars(bars@)),
            Ghost(vwaps(bars@)),
        );
        Some(sum / Decimal::count(n as u64))
    }
}

} // verus!
