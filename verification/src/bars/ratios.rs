//! Ratios over bars.

use crate::bar::OhlcvBar;
use crate::bars::{
    bodies, channel, close_deviations, close_span, close_values, closes, down_bars, drawdown,
    gaps_up, high_values, lows, open_values, ranges, relative_gap, true_ranges, up_bars,
    volume_shares, volumes, weighted_close_val, wick_totals,
};
use crate::decimal::{is_nought, magnitude, minus, over, plus, times, whole, yields, Decimal};
use crate::series::{
    self, all_some, highest, last_highest, lowest, mean, tally, total, total_where, windows,
};
use vstd::prelude::*;
use vstd::slice::slice_subrange;

verus! {

impl OhlcvBar {
    /// N-period price momentum: `(close[last] / close[last - n]) − 1`.
    ///
    /// Returns `None` if the slice has fewer than `n + 1` bars or if
    /// `close[last - n]` is zero.
    pub fn momentum(bars: &[OhlcvBar], n: usize) -> (r: Option<Decimal>)
        requires
            bars@.len() > n && bars@[bars@.len() - 1 - n].close@ != 0 ==> over(
                minus(
                    bars@[bars@.len() - 1].close.val(),
                    bars@[bars@.len() - 1 - n].close.val(),
                ),
                bars@[bars@.len() - 1 - n].close.val(),
            ) is Some,
        ensures
            yields(
                r,
                bars@.len() > n && bars@[bars@.len() - 1 - n].close@ != 0,
                over(
                    minus(
                        bars@[bars@.len() - 1].close.val(),
                        bars@[bars@.len() - 1 - n].close.val(),
                    ),
                    bars@[bars@.len() - 1 - n].close.val(),
                ),
            ),
    {
        if bars.len() <= n {
            return None;
        }
        let current = bars[bars.len() - 1].close;
        let prior = bars[bars.len() - 1 - n].close;
        if prior.is_zero() {
            return None;
        }
        Some((current - prior) / prior)
    }

    /// Elder's efficiency ratio: `|close[last] − close[first]| / Σ|range(bar)|`.
    ///
    /// Measures how directionally efficient price movement is across the slice.
    /// A value close to 1 means price moved cleanly; near 0 means choppy.
    /// Returns `None` if the slice has fewer than 2 bars or total range is zero.
    pub fn price_efficiency_ratio(bars: &[OhlcvBar]) -> (r: Option<Decimal>)
        requires
            bars@.len() >= 2
                ==> magnitude(minus(bars@[bars@.len() - 1].close.val(), bars@[0].close.val())) is Some,
            bars@.len() >= 2 ==> total(bars@.len() as int, ranges(bars@)) is Some,
            bars@.len() >= 2 && !is_nought(total(bars@.len() as int, ranges(bars@))) ==> over(
                magnitude(minus(bars@[bars@.len() - 1].close.val(), bars@[0].close.val())),
                total(bars@.len() as int, ranges(bars@)),
            ) is Some,
        ensures
            yields(
                r,
                bars@.len() >= 2 && !is_nought(total(bars@.len() as int, ranges(bars@))),
                over(
                    magnitude(minus(bars@[bars@.len() - 1].close.val(), bars@[0].close.val())),
                    total(bars@.len() as int, ranges(bars@)),
                ),
            ),
    {
        if bars.len() < 2 {
            return None;
        }
        let net_move = (bars[bars.len() - 1].close - bars[0].close).abs();
        let total_path = series::add_up(
            bars,
            |b: &OhlcvBar| -> (d: Decimal)
                requires
                    b.range_val() is Some,
                ensures
                    d.val() == b.range_val()
            { b.range() },
            Ghost(ranges(bars@)),
        );
        if total_path.is_zero() {
            return None;
        }
        Some(net_move / total_path)
    }

    /// Volume-weighted average close price across the slice.
    ///
    /// Returns `None` if the slice is empty or total volume is zero.
    pub fn volume_weighted_close(bars: &[OhlcvBar]) -> (r: Option<Decimal>)
        requires
            total(bars@.len() as int, volumes(bars@)) is Some,
            !is_nought(total(bars@.len() as int, volumes(bars@)))
                ==> total(bars@.len() as int, close_values(bars@)) is Some,
            !is_nought(total(bars@.len() as int, volumes(bars@))) ==> over(
                total(bars@.len() as int, close_values(bars@)),
                total(bars@.len() as int, volumes(bars@)),
            ) is Some,
        ensures
            yields(
                r,
                !is_nought(total(bars@.len() as int, volumes(bars@))),
                over(
                    total(bars@.len() as int, close_values(bars@)),
                    total(bars@.len() as int, volumes(bars@)),
                ),
            ),
    {
        let total_volume = series::add_up(
            bars,
            |b: &OhlcvBar| -> (d: Decimal)
                ensures
                    d.val() == b.volume.val()
            { b.volume },
            Ghost(volumes(bars@)),
        );
        if total_volume.is_zero() {
            return None;
        }
        let weighted_sum = series::add_up(
            bars,
            |b: &OhlcvBar| -> (d: Decimal)
                requires
                    times(b.close.val(), b.volume.val()) is Some,
                ensures
                    d.val() == times(b.close.val(), b.volume.val())
            { b.close * b.volume },
            Ghost(close_values(bars@)),
        );
        Some(weighted_sum / total_volume)
    }

    /// Volume-weighted average open price across all bars.
    /// Returns `None` for an empty slice or zero total volume.
    pub fn volume_weighted_open(bars: &[OhlcvBar]) -> (r: Option<Decimal>)
        requires
            total(bars@.len() as int, volumes(bars@)) is Some,
            !is_nought(total(bars@.len() as int, volumes(bars@)))
                ==> total(bars@.len() as int, open_values(bars@)) is Some,
            !is_nought(total(bars@.len() as int, volumes(bars@))) ==> over(
                total(bars@.len() as int, open_values(bars@)),
                total(bars@.len() as int, volumes(bars@)),
            ) is Some,
        ensures
            yields(
                r,
                !is_nought(total(bars@.len() as int, volumes(bars@))),
                over(
                    total(bars@.len() as int, open_values(bars@)),
                    total(bars@.len() as int, volumes(bars@)),
                ),
            ),
    {
        let total_volume = series::add_up(
            bars,
            |b: &OhlcvBar| -> (d: Decimal)
                ensures
                    d.val() == b.volume.val()
            { b.volume },
            Ghost(volumes(bars@)),
        );
        if total_volume.is_zero() {
            return None;
        }
        let weighted_sum = series::add_up(
            bars,
            |b: &OhlcvBar| -> (d: Decimal)
                requires
                    times(b.open.val(), b.volume.val()) is Some,
                ensures
                    d.val() == times(b.open.val(), b.volume.val())
            { b.open * b.volume },
            Ghost(open_values(bars@)),
        );
        Some(weighted_sum / total_volume)
    }

    /// Volume-weighted high price across all bars.
    /// Returns `None` for an empty slice or zero total volume.
    pub fn volume_weighted_high(bars: &[OhlcvBar]) -> (r: Option<Decimal>)
        requires
            total(bars@.len() as int, volumes(bars@)) is Some,
            !is_nought(total(bars@.len() as int, volumes(bars@)))
                ==> total(bars@.len() as int, high_values(bars@)) is Some,
            !is_nought(total(bars@.len() as int, volumes(bars@))) ==> over(
                total(bars@.len() as int, high_values(bars@)),
                total(bars@.len() as int, volumes(bars@)),
            ) is Some,
        ensures
            yields(
                r,
                !is_nought(total(bars@.len() as int, volumes(bars@))),
                over(
                    total(bars@.len() as int, high_values(bars@)),
                    total(bars@.len() as int, volumes(bars@)),
                ),
            ),
    {
        let total_volume = series::add_up(
            bars,
            |b: &OhlcvBar| -> (d: Decimal)
                ensures
                    d.val() == b.volume.val()
            { b.volume },
            Ghost(volumes(bars@)),
        );
        if total_volume.is_zero() {
            return None;
        }
        let weighted_sum = series::add_up(
            bars,
            |b: &OhlcvBar| -> (d: Decimal)
                requires
                    times(b.high.val(), b.volume.val()) is Some,
                ensures
                    d.val() == times(b.high.val(), b.volume.val())
            { b.high * b.volume },
            Ghost(high_values(bars@)),
        );
        Some(weighted_sum / total_volume)
    }

    /// Percentage change in close price from the first bar to the last.
    ///
    /// Returns `None` if the slice has fewer than 2 bars or the first
    /// close is zero.
    pub fn rolling_return(bars: &[OhlcvBar]) -> (r: Option<Decimal>)
        requires
            bars@.len() >= 2 && bars@[0].close@ != 0 ==> over(
                minus(bars@[bars@.len() - 1].close.val(), bars@[0].close.val()),
                bars@[0].close.val(),
            ) is Some,
        ensures
            yields(
                r,
                bars@.len() >= 2 && bars@[0].close@ != 0,
                over(
                    minus(bars@[bars@.len() - 1].close.val(), bars@[0].close.val()),
                    bars@[0].close.val(),
                ),
            ),
    {
        if bars.len() < 2 {
            return None;
        }
        if bars[0].close.is_zero() {
            return None;
        }
        Some((bars[bars.len() - 1].close - bars[0].close) / bars[0].close)
    }

    /// Average True Range expressed as a fraction of the mean close price.
    ///
    /// Returns `None` if the slice has fewer than 2 bars or mean close is zero.
    pub fn atr_pct(bars: &[OhlcvBar]) -> (r: Option<Decimal>)
        requires
            bars@.len() >= 2 ==> mean(windows(bars@.len(), 2), true_ranges(bars@)) is Some,
            bars@.len() >= 2 ==> mean(bars@.len() as int, closes(bars@)) is Some,
            bars@.len() >= 2 && !is_nought(mean(bars@.len() as int, closes(bars@))) ==> over(
                mean(windows(bars@.len(), 2), true_ranges(bars@)),
                mean(bars@.len() as int, closes(bars@)),
            ) is Some,
        ensures
            yields(
                r,
                bars@.len() >= 2 && !is_nought(mean(bars@.len() as int, closes(bars@))),
                over(
                    mean(windows(bars@.len(), 2), true_ranges(bars@)),
                    mean(bars@.len() as int, closes(bars@)),
                ),
            ),
    {
        let atr = Self::average_true_range(bars)?;
        let mean = Self::mean_close(bars)?;
        if mean.is_zero() {
            return None;
        }
        Some(atr / mean)
    }

    /// ATR as a fraction of the mean close price.
    ///
    /// `ATR / mean_close * 100`. A dimensionless volatility measure. Returns
    /// `None` if fewer than 2 bars or if mean close is zero.
    pub fn atr_ratio(bars: &[OhlcvBar]) -> (r: Option<Decimal>)
        requires
            bars@.len() >= 2 ==> mean(windows(bars@.len(), 2), true_ranges(bars@)) is Some,
            bars@.len() >= 2 ==> mean(bars@.len() as int, closes(bars@)) is Some,
            bars@.len() >= 2 && !is_nought(mean(bars@.len() as int, closes(bars@))) ==> times(
                over(
                    mean(windows(bars@.len(), 2), true_ranges(bars@)),
                    mean(bars@.len() as int, closes(bars@)),
                ),
                whole(100),
            ) is Some,
        ensures
            yields(
                r,
                bars@.len() >= 2 && !is_nought(mean(bars@.len() as int, closes(bars@))),
                times(
                    over(
                        mean(windows(bars@.len(), 2), true_ranges(bars@)),
                        mean(bars@.len() as int, closes(bars@)),
                    ),
                    whole(100),
                ),
            ),
    {
        let atr = Self::average_true_range(bars)?;
        let mean = Self::mean_close(bars)?;
        if mean.is_zero() {
            return None;
        }
        Some(atr / mean * Decimal::whole(100))
    }

    /// Mean true range divided by mean close price — a normalised volatility score.
    /// Returns `None` for fewer than 2 bars or zero mean close.
    pub fn bar_volatility_score(bars: &[OhlcvBar]) -> (r: Option<Decimal>)
        requires
            bars@.len() >= 2 ==> mean(windows(bars@.len(), 2), true_ranges(bars@)) is Some,
            bars@.len() >= 2 ==> mean(bars@.len() as int, closes(bars@)) is Some,
            bars@.len() >= 2 && !is_nought(mean(bars@.len() as int, closes(bars@))) ==> over(
                mean(windows(bars@.len(), 2), true_ranges(bars@)),
                mean(bars@.len() as int, closes(bars@)),
            ) is Some,
        ensures
            yields(
                r,
                bars@.len() >= 2 && !is_nought(mean(bars@.len() as int, closes(bars@))),
                over(
                    mean(windows(bars@.len(), 2), true_ranges(bars@)),
                    mean(bars@.len() as int, closes(bars@)),
                ),
            ),
    {
        let mean_tr = Self::average_true_range(bars)?;
        let mean_close = Self::mean_close(bars)?;
        if mean_close.is_zero() {
            return None;
        }
        Some(mean_tr / mean_close)
    }

    /// Bar efficiency: ratio of net price move to total range.
    ///
    /// `(close - open).abs() / (high - low)`.  Returns `None` for a zero-range bar.
    pub fn bar_efficiency(bar: &OhlcvBar) -> (r: Option<Decimal>)
        requires
            bar.range_val() is Some,
            !is_nought(bar.range_val()) ==> over(bar.body_val(), bar.range_val()) is Some,
        ensures
            yields(r, !is_nought(bar.range_val()), over(bar.body_val(), bar.range_val())),
    {
        let range = bar.range();
        if range.is_zero() {
            return None;
        }
        Some(bar.body() / range)
    }

    /// Returns `true` if the bar opened with a gap relative to `prev_close`
    /// (i.e. open != prev_close).
    pub fn is_gap_bar(bar: &OhlcvBar, prev_close: Decimal) -> (r: bool)
        ensures
            r == (bar.open@ != prev_close@),
    {
        bar.open != prev_close
    }

    /// Net price change: `close - open` for the last bar.
    ///
    /// Returns `None` for an empty slice.
    pub fn net_change(bars: &[OhlcvBar]) -> (r: Option<Decimal>)
        requires
            bars@.len() > 0 ==> bars@[bars@.len() - 1].price_change_val() is Some,
        ensures
            yields(r, bars@.len() > 0, bars@[bars@.len() - 1].price_change_val()),
    {
        if bars.len() == 0 {
            return None;
        }
        Some(bars[bars.len() - 1].price_change())
    }

    /// Percentage change from open to close for the last bar: `(close - open) / open * 100`.
    ///
    /// Returns `None` for an empty slice or zero open.
    pub fn open_to_close_pct(bars: &[OhlcvBar]) -> (r: Option<Decimal>)
        requires
            bars@.len() > 0 && bars@[bars@.len() - 1].open@ != 0 ==> times(
                over(
                    bars@[bars@.len() - 1].price_change_val(),
                    bars@[bars@.len() - 1].open.val(),
                ),
                whole(100),
            ) is Some,
        ensures
            yields(
                r,
                bars@.len() > 0 && bars@[bars@.len() - 1].open@ != 0,
                times(
                    over(
                        bars@[bars@.len() - 1].price_change_val(),
                        bars@[bars@.len() - 1].open.val(),
                    ),
                    whole(100),
                ),
            ),
    {
        if bars.len() == 0 {
            return None;
        }
        if bars[bars.len() - 1].open.is_zero() {
            return None;
        }
        Some(bars[bars.len() - 1].price_change() / bars[bars.len() - 1].open * Decimal::whole(100))
    }

    /// Percentage of high-to-low range relative to high: `(high - low) / high * 100`.
    ///
    /// Returns `None` for an empty slice or zero high.
    pub fn high_to_low_pct(bars: &[OhlcvBar]) -> (r: Option<Decimal>)
        requires
            bars@.len() > 0 && bars@[bars@.len() - 1].high@ != 0 ==> times(
                over(bars@[bars@.len() - 1].range_val(), bars@[bars@.len() - 1].high.val()),
                whole(100),
            ) is Some,
        ensures
            yields(
                r,
                bars@.len() > 0 && bars@[bars@.len() - 1].high@ != 0,
                times(
                    over(bars@[bars@.len() - 1].range_val(), bars@[bars@.len() - 1].high.val()),
                    whole(100),
                ),
            ),
    {
        if bars.len() == 0 {
            return None;
        }
        if bars[bars.len() - 1].high.is_zero() {
            return None;
        }
        Some(bars[bars.len() - 1].range() / bars[bars.len() - 1].high * Decimal::whole(100))
    }

    /// Percentage change in volume from one bar to the next (last bar vs prior bar).
    ///
    /// Returns `None` if fewer than 2 bars or prior volume is zero.
    pub fn volume_change_pct(bars: &[OhlcvBar]) -> (r: Option<Decimal>)
        requires
            bars@.len() >= 2 && bars@[bars@.len() - 2].volume@ != 0 ==> times(
                over(
                    minus(
                        bars@[bars@.len() - 1].volume.val(),
                        bars@[bars@.len() - 2].volume.val(),
                    ),
                    bars@[bars@.len() - 2].volume.val(),
                ),
                whole(100),
            ) is Some,
        ensures
            yields(
                r,
                bars@.len() >= 2 && bars@[bars@.len() - 2].volume@ != 0,
                times(
                    over(
                        minus(
                            bars@[bars@.len() - 1].volume.val(),
                            bars@[bars@.len() - 2].volume.val(),
                        ),
                        bars@[bars@.len() - 2].volume.val(),
                    ),
                    whole(100),
                ),
            ),
    {
        if bars.len() < 2 {
            return None;
        }
        if bars[bars.len() - 2].volume.is_zero() {
            return None;
        }
        Some(
            (
                bars[bars.len() - 1].volume - bars[bars.len() - 2].volume
            ) / bars[bars.len() - 2].volume * Decimal::whole(100),
        )
    }

    /// Percentage change in volume between the last two bars.
    ///
    /// Returns `None` if fewer than 2 bars or if the previous bar's volume is
    /// zero.
    pub fn volume_acceleration(bars: &[OhlcvBar]) -> (r: Option<Decimal>)
        requires
            bars@.len() >= 2 && bars@[bars@.len() - 2].volume@ != 0 ==> times(
                over(
                    minus(
                        bars@[bars@.len() - 1].volume.val(),
                        bars@[bars@.len() - 2].volume.val(),
                    ),
                    bars@[bars@.len() - 2].volume.val(),
                ),
                whole(100),
            ) is Some,
        ensures
            yields(
                r,
                bars@.len() >= 2 && bars@[bars@.len() - 2].volume@ != 0,
                times(
                    over(
                        minus(
                            bars@[bars@.len() - 1].volume.val(),
                            bars@[bars@.len() - 2].volume.val(),
                        ),
                        bars@[bars@.len() - 2].volume.val(),
                    ),
                    whole(100),
                ),
            ),
    {
        Self::volume_change_pct(bars)
    }

    /// Gap percentage between consecutive bars: `(bar.open - prev.close) / prev.close * 100`.
    ///
    /// Returns `None` if fewer than 2 bars or previous close is zero.
    pub fn open_gap_pct(bars: &[OhlcvBar]) -> (r: Option<Decimal>)
        requires
            bars@.len() >= 2 && bars@[bars@.len() - 2].close@ != 0 ==> times(
                over(
                    minus(
                        bars@[bars@.len() - 1].open.val(),
                        bars@[bars@.len() - 2].close.val(),
                    ),
                    bars@[bars@.len() - 2].close.val(),
                ),
                whole(100),
            ) is Some,
        ensures
            yields(
                r,
                bars@.len() >= 2 && bars@[bars@.len() - 2].close@ != 0,
                times(
                    over(
                        minus(
                            bars@[bars@.len() - 1].open.val(),
                            bars@[bars@.len() - 2].close.val(),
                        ),
                        bars@[bars@.len() - 2].close.val(),
                    ),
                    whole(100),
                ),
            ),
    {
        if bars.len() < 2 {
            return None;
        }
        if bars[bars.len() - 2].close.is_zero() {
            return None;
        }
        Some(
            (
                bars[bars.len() - 1].open - bars[bars.len() - 2].close
            ) / bars[bars.len() - 2].close * Decimal::whole(100),
        )
    }

    /// Position of the last bar's close within the overall high-low range of all bars.
    ///
    /// Returns `(close - lowest_low) / (highest_high - lowest_low)`.
    /// Returns `None` if the slice is empty or range is zero.
    pub fn price_position(bars: &[OhlcvBar]) -> (r: Option<Decimal>)
        requires
            bars@.len() > 0 ==> channel(bars@) is Some,
            bars@.len() > 0 && !is_nought(channel(bars@)) ==> over(
                minus(
                    bars@[bars@.len() - 1].close.val(),
                    lowest(bars@.len() as int, lows(bars@)),
                ),
                channel(bars@),
            ) is Some,
        ensures
            yields(
                r,
                bars@.len() > 0 && !is_nought(channel(bars@)),
                over(
                    minus(
                        bars@[bars@.len() - 1].close.val(),
                        lowest(bars@.len() as int, lows(bars@)),
                    ),
                    channel(bars@),
                ),
            ),
    {
        let hi = Self::highest_high(bars)?;
        let lo = Self::lowest_low(bars)?;
        let range = hi - lo;
        if range.is_zero() {
            return None;
        }
        Some((bars[bars.len() - 1].close - lo) / range)
    }

    /// Normalised close: last close as a fraction of the window's close range.
    ///
    /// `(last_close - min_close) / (max_close - min_close)`. Returns `None`
    /// if fewer than 2 bars or the close range is zero.
    pub fn normalized_close(bars: &[OhlcvBar]) -> (r: Option<Decimal>)
        requires
            bars@.len() > 0 ==> close_span(bars@) is Some,
            bars@.len() > 0 && !is_nought(close_span(bars@)) ==> over(
                minus(
                    bars@[bars@.len() - 1].close.val(),
                    lowest(bars@.len() as int, closes(bars@)),
                ),
                close_span(bars@),
            ) is Some,
        ensures
            yields(
                r,
                bars@.len() > 0 && !is_nought(close_span(bars@)),
                over(
                    minus(
                        bars@[bars@.len() - 1].close.val(),
                        lowest(bars@.len() as int, closes(bars@)),
                    ),
                    close_span(bars@),
                ),
            ),
    {
        let hi = Self::max_close(bars)?;
        let lo = Self::min_close(bars)?;
        let range = hi - lo;
        if range.is_zero() {
            return None;
        }
        Some((bars[bars.len() - 1].close - lo) / range)
    }

    /// Price channel position: where the last close falls in the
    /// `[lowest_low, highest_high]` range.
    ///
    /// `(last_close - lowest_low) / (highest_high - lowest_low)`. Returns
    /// `None` if the slice is empty or the range is zero.
    pub fn price_channel_position(bars: &[OhlcvBar]) -> (r: Option<Decimal>)
        requires
            bars@.len() > 0 ==> channel(bars@) is Some,
            bars@.len() > 0 && !is_nought(channel(bars@)) ==> over(
                minus(
                    bars@[bars@.len() - 1].close.val(),
                    lowest(bars@.len() as int, lows(bars@)),
                ),
                channel(bars@),
            ) is Some,
        ensures
            yields(
                r,
                bars@.len() > 0 && !is_nought(channel(bars@)),
                over(
                    minus(
                        bars@[bars@.len() - 1].close.val(),
                        lowest(bars@.len() as int, lows(bars@)),
                    ),
                    channel(bars@),
                ),
            ),
    {
        Self::price_position(bars)
    }

    /// Price compression ratio: `mean_body / mean_range`.
    ///
    /// A value near 1 indicates full-body candles (strong directional moves);
    /// near 0 indicates indecision or doji-heavy periods. Returns `None` if
    /// the slice is empty or mean range is zero.
    pub fn price_compression_ratio(bars: &[OhlcvBar]) -> (r: Option<Decimal>)
        requires
            bars@.len() > 0 ==> mean(bars@.len() as int, bodies(bars@)) is Some,
            bars@.len() > 0 ==> mean(bars@.len() as int, ranges(bars@)) is Some,
            bars@.len() > 0 && !is_nought(mean(bars@.len() as int, ranges(bars@))) ==> over(
                mean(bars@.len() as int, bodies(bars@)),
                mean(bars@.len() as int, ranges(bars@)),
            ) is Some,
        ensures
            yields(
                r,
                bars@.len() > 0 && !is_nought(mean(bars@.len() as int, ranges(bars@))),
                over(
                    mean(bars@.len() as int, bodies(bars@)),
                    mean(bars@.len() as int, ranges(bars@)),
                ),
            ),
    {
        let mean_body = Self::average_body(bars)?;
        let mean_range = Self::mean_range(bars)?;
        if mean_range.is_zero() {
            return None;
        }
        Some(mean_body / mean_range)
    }

    /// Fraction of total volume that occurred on up-bars (close > open).
    ///
    /// Returns `None` if total volume is zero or the slice is empty.
    pub fn up_volume_fraction(bars: &[OhlcvBar]) -> (r: Option<Decimal>)
        requires
            bars@.len() > 0 ==> total(bars@.len() as int, volumes(bars@)) is Some,
            bars@.len() > 0 && !is_nought(total(bars@.len() as int, volumes(bars@)))
                ==> total_where(bars@.len() as int, up_bars(bars@), volumes(bars@)) is Some,
            bars@.len() > 0 && !is_nought(total(bars@.len() as int, volumes(bars@))) ==> over(
                total_where(bars@.len() as int, up_bars(bars@), volumes(bars@)),
                total(bars@.len() as int, volumes(bars@)),
            ) is Some,
        ensures
            yields(
                r,
                bars@.len() > 0 && !is_nought(total(bars@.len() as int, volumes(bars@))),
                over(
                    total_where(bars@.len() as int, up_bars(bars@), volumes(bars@)),
                    total(bars@.len() as int, volumes(bars@)),
                ),
            ),
    {
        if bars.len() == 0 {
            return None;
        }
        let total = series::add_up(
            bars,
            |b: &OhlcvBar| -> (d: Decimal)
                ensures
                    d.val() == b.volume.val()
            { b.volume },
            Ghost(volumes(bars@)),
        );
        if total.is_zero() {
            return None;
        }
        let up_vol = series::add_up_where(
            bars,
            |b: &OhlcvBar| -> (r: bool)
                ensures
                    r == (b.close@ > b.open@)
            { b.close > b.open },
            |b: &OhlcvBar| -> (d: Decimal)
                ensures
                    d.val() == b.volume.val()
            { b.volume },
            Ghost(up_bars(bars@)),
            Ghost(volumes(bars@)),
        );
        Some(up_vol / total)
    }

    /// Ratio of total wick length to total body size across the slice.
    ///
    /// Computes `sum(upper_wick + lower_wick) / sum(body)` where body is
    /// `|close − open|`. Returns `None` when total body is zero (all doji
    /// or empty slice).
    pub fn shadow_to_body_ratio(bars: &[OhlcvBar]) -> (r: Option<Decimal>)
        requires
            bars@.len() > 0 ==> total(bars@.len() as int, wick_totals(bars@)) is Some,
            bars@.len() > 0 ==> total(bars@.len() as int, bodies(bars@)) is Some,
            bars@.len() > 0 && !is_nought(total(bars@.len() as int, bodies(bars@))) ==> over(
                total(bars@.len() as int, wick_totals(bars@)),
                total(bars@.len() as int, bodies(bars@)),
            ) is Some,
        ensures
            yields(
                r,
                bars@.len() > 0 && !is_nought(total(bars@.len() as int, bodies(bars@))),
                over(
                    total(bars@.len() as int, wick_totals(bars@)),
                    total(bars@.len() as int, bodies(bars@)),
                ),
            ),
    {
        if bars.len() == 0 {
            return None;
        }
        let total_wick = series::add_up(
            bars,
            |b: &OhlcvBar| -> (d: Decimal)
                requires
                    plus(b.wick_upper_val(), b.wick_lower_val()) is Some,
                ensures
                    d.val() == plus(b.wick_upper_val(), b.wick_lower_val())
            { b.wick_upper() + b.wick_lower() },
            Ghost(wick_totals(bars@)),
        );
        let total_body = series::add_up(
            bars,
            |b: &OhlcvBar| -> (d: Decimal)
                requires
                    b.body_val() is Some,
                ensures
                    d.val() == b.body_val()
            { b.body() },
            Ghost(bodies(bars@)),
        );
        if total_body.is_zero() {
            return None;
        }
        Some(total_wick / total_body)
    }

    /// Percentage change from the first bar's close to the last bar's close.
    ///
    /// Computed as `(last.close − first.close) / first.close × 100`.
    /// Returns `None` when the slice is empty or the first close is zero.
    pub fn first_last_close_pct(bars: &[OhlcvBar]) -> (r: Option<Decimal>)
        requires
            bars@.len() > 0 && bars@[0].close@ != 0 ==> times(
                over(
                    minus(bars@[bars@.len() - 1].close.val(), bars@[0].close.val()),
                    bars@[0].close.val(),
                ),
                whole(100),
            ) is Some,
        ensures
            yields(
                r,
                bars@.len() > 0 && bars@[0].close@ != 0,
                times(
                    over(
                        minus(bars@[bars@.len() - 1].close.val(), bars@[0].close.val()),
                        bars@[0].close.val(),
                    ),
                    whole(100),
                ),
            ),
    {
        if bars.len() == 0 {
            return None;
        }
        if bars[0].close.is_zero() {
            return None;
        }
        Some((bars[bars.len() - 1].close - bars[0].close) / bars[0].close * Decimal::whole(100))
    }

    /// Ratio of bullish-bar volume to the sum of bullish and bearish volumes.
    ///
    /// A value near 1.0 means almost all volume is in up-bars; near 0.0
    /// means down-bars dominate. Returns `None` when both are zero (e.g.,
    /// all flat/neutral bars).
    pub fn directional_volume_ratio(bars: &[OhlcvBar]) -> (r: Option<Decimal>)
        requires
            total_where(bars@.len() as int, up_bars(bars@), volumes(bars@)) is Some,
            total_where(bars@.len() as int, down_bars(bars@), volumes(bars@)) is Some,
            plus(
                total_where(bars@.len() as int, up_bars(bars@), volumes(bars@)),
                total_where(bars@.len() as int, down_bars(bars@), volumes(bars@)),
            ) is Some,
            !is_nought(plus(
                total_where(bars@.len() as int, up_bars(bars@), volumes(bars@)),
                total_where(bars@.len() as int, down_bars(bars@), volumes(bars@)),
            )) ==> over(
                total_where(bars@.len() as int, up_bars(bars@), volumes(bars@)),
                plus(
                    total_where(bars@.len() as int, up_bars(bars@), volumes(bars@)),
                    total_where(bars@.len() as int, down_bars(bars@), volumes(bars@)),
                ),
            ) is Some,
        ensures
            yields(
                r,
                !is_nought(plus(
                    total_where(bars@.len() as int, up_bars(bars@), volumes(bars@)),
                    total_where(bars@.len() as int, down_bars(bars@), volumes(bars@)),
                )),
                over(
                    total_where(bars@.len() as int, up_bars(bars@), volumes(bars@)),
                    plus(
                        total_where(bars@.len() as int, up_bars(bars@), volumes(bars@)),
                        total_where(bars@.len() as int, down_bars(bars@), volumes(bars@)),
                    ),
                ),
            ),
    {
        let bull = series::add_up_where(
            bars,
            |b: &OhlcvBar| -> (r: bool)
                ensures
                    r == (b.close@ > b.open@)
            { b.close > b.open },
            |b: &OhlcvBar| -> (d: Decimal)
                ensures
                    d.val() == b.volume.val()
            { b.volume },
            Ghost(up_bars(bars@)),
            Ghost(volumes(bars@)),
        );
        let bear = series::add_up_where(
            bars,
            |b: &OhlcvBar| -> (r: bool)
                ensures
                    r == (b.close@ < b.open@)
            { b.close < b.open },
            |b: &OhlcvBar| -> (d: Decimal)
                ensures
                    d.val() == b.volume.val()
            { b.volume },
            Ghost(down_bars(bars@)),
            Ghost(volumes(bars@)),
        );
        let total = bull + bear;
        if total.is_zero() {
            return None;
        }
        Some(bull / total)
    }

    /// Ratio of the last bar's high−low range to the first bar's high−low range.
    /// Returns `None` for fewer than 2 bars or when the first bar's range is zero.
    pub fn price_range_expansion(bars: &[OhlcvBar]) -> (r: Option<Decimal>)
        requires
            bars@.len() >= 2 ==> bars@[0].range_val() is Some,
            bars@.len() >= 2 && !is_nought(bars@[0].range_val())
                ==> bars@[bars@.len() - 1].range_val() is Some,
            bars@.len() >= 2 && !is_nought(bars@[0].range_val())
                ==> over(bars@[bars@.len() - 1].range_val(), bars@[0].range_val()) is Some,
        ensures
            yields(
                r,
                bars@.len() >= 2 && !is_nought(bars@[0].range_val()),
                over(bars@[bars@.len() - 1].range_val(), bars@[0].range_val()),
            ),
    {
        if bars.len() < 2 {
            return None;
        }
        let first_range = bars[0].range();
        if first_range.is_zero() {
            return None;
        }
        let last_range = bars[bars.len() - 1].range();
        Some(last_range / first_range)
    }

    /// Ratio of total up-bar volume to total down-bar volume.
    /// Returns `None` if there are no up-bars or no down-bars, or if the down-bars have no
    /// volume to divide by.
    pub fn up_down_volume_ratio(bars: &[OhlcvBar]) -> (r: Option<Decimal>)
        requires
            total_where(bars@.len() as int, up_bars(bars@), volumes(bars@)) is Some,
            total_where(bars@.len() as int, down_bars(bars@), volumes(bars@)) is Some,
            tally(bars@.len() as int, up_bars(bars@)) > 0
                && !is_nought(total_where(bars@.len() as int, down_bars(bars@), volumes(bars@)))
                ==> over(
                    total_where(bars@.len() as int, up_bars(bars@), volumes(bars@)),
                    total_where(bars@.len() as int, down_bars(bars@), volumes(bars@)),
                ) is Some,
        ensures
            yields(
                r,
                tally(bars@.len() as int, up_bars(bars@)) > 0
                    && tally(bars@.len() as int, down_bars(bars@)) > 0
                    && !is_nought(total_where(bars@.len() as int, down_bars(bars@), volumes(bars@))),
                over(
                    total_where(bars@.len() as int, up_bars(bars@), volumes(bars@)),
                    total_where(bars@.len() as int, down_bars(bars@), volumes(bars@)),
                ),
            ),
    {
        let up_count: usize = series::count(
            bars,
            |b: &OhlcvBar| -> (r: bool)
                ensures
                    r == (b.close@ > b.open@)
            { b.close > b.open },
            Ghost(up_bars(bars@)),
        );
        let down_count: usize = series::count(
            bars,
            |b: &OhlcvBar| -> (r: bool)
                ensures
                    r == (b.close@ < b.open@)
            { b.close < b.open },
            Ghost(down_bars(bars@)),
        );
        if up_count == 0 || down_count == 0 {
            return None;
        }
        let up_vol = series::add_up_where(
            bars,
            |b: &OhlcvBar| -> (r: bool)
                ensures
                    r == (b.close@ > b.open@)
            { b.close > b.open },
            |b: &OhlcvBar| -> (d: Decimal)
                ensures
                    d.val() == b.volume.val()
            { b.volume },
            Ghost(up_bars(bars@)),
            Ghost(volumes(bars@)),
        );
        let dn_vol = series::add_up_where(
            bars,
            |b: &OhlcvBar| -> (r: bool)
                ensures
                    r == (b.close@ < b.open@)
            { b.close < b.open },
            |b: &OhlcvBar| -> (d: Decimal)
                ensures
                    d.val() == b.volume.val()
            { b.volume },
            Ghost(down_bars(bars@)),
            Ghost(volumes(bars@)),
        );
        if dn_vol.is_zero() {
            return None;
        }
        Some(up_vol / dn_vol)
    }

    /// Ratio of volume range `(max - min)` to mean volume across bars.
    /// Returns `None` for an empty slice or zero mean volume.
    pub fn volume_range_ratio(bars: &[OhlcvBar]) -> (r: Option<Decimal>)
        requires
            bars@.len() > 0 ==> mean(bars@.len() as int, volumes(bars@)) is Some,
            bars@.len() > 0 && !is_nought(mean(bars@.len() as int, volumes(bars@))) ==> over(
                minus(
                    last_highest(bars@.len() as int, volumes(bars@)),
                    lowest(bars@.len() as int, volumes(bars@)),
                ),
                mean(bars@.len() as int, volumes(bars@)),
            ) is Some,
        ensures
            yields(
                r,
                bars@.len() > 0 && !is_nought(mean(bars@.len() as int, volumes(bars@))),
                over(
                    minus(
                        last_highest(bars@.len() as int, volumes(bars@)),
                        lowest(bars@.len() as int, volumes(bars@)),
                    ),
                    mean(bars@.len() as int, volumes(bars@)),
                ),
            ),
    {
        if bars.len() == 0 {
            return None;
        }
        let max_v = Self::max_bar_volume(bars)?;
        let min_v = Self::min_bar_volume(bars)?;
        let mean = Self::mean_volume(bars)?;
        if mean.is_zero() {
            return None;
        }
        Some((max_v - min_v) / mean)
    }

    /// Maximum drawdown of close prices across a slice of bars.
    ///
    /// Computed as the largest percentage decline from a running close peak:
    /// `max_drawdown = max over i of (peak_close_before_i - close_i) / peak_close_before_i`.
    ///
    /// Returns `None` if the slice has fewer than 2 bars or if all closes are zero.
    /// Result is in `[0.0, ∞)` — a value of `0.05` means a 5% drawdown.
    pub fn max_drawdown(bars: &[OhlcvBar]) -> (r: Option<Decimal>)
        requires
            bars@.len() >= 2 ==> drawdown(bars@, bars@.len() as int) is Some,
        ensures
            yields(
                r,
                bars@.len() >= 2 && exists|i: int|
                    0 <= i < bars@.len() && (#[trigger] bars@[i]).close@ != 0,
                drawdown(bars@, bars@.len() as int),
            ),
    {
        if bars.len() < 2 {
            return None;
        }
        let mut peak = bars[0].close;
        let mut max_dd = Decimal::zero();
        let mut all_zero = bars[0].close.is_zero();
        let mut i: usize = 1;
        while i < bars.len()
            invariant
                1 <= i <= bars@.len(),
                peak.val() == highest(i as int, closes(bars@)),
                max_dd.val() == drawdown(bars@, i as int),
                drawdown(bars@, bars@.len() as int) is Some,
                all_zero ==> forall|j: int| 0 <= j < i ==> (#[trigger] bars@[j]).close@ == 0,
                !all_zero ==> exists|j: int| 0 <= j < i && (#[trigger] bars@[j]).close@ != 0,
            decreases bars@.len() - i,
        {
            let close = bars[i].close;
            assert(bars@[i as int].close == close);
            if !close.is_zero() {
                all_zero = false;
            }
            proof {
                lemma_drawdown_prefix(bars@, bars@.len() as int, i + 1);
            }
            if close > peak {
                peak = close;
            } else if !peak.is_zero() {
                max_dd = max_dd.max((peak - close) / peak);
            }
            i += 1;
        }
        if all_zero {
            return None;
        }
        Some(max_dd)
    }

    /// Largest upward gap (`open − prev_close`) as a fraction of `prev_close`.
    /// Returns `None` for fewer than 2 bars or when no positive gap exists.
    pub fn max_gap_up(bars: &[OhlcvBar]) -> (r: Option<Decimal>)
        requires
            forall|i: int|
                0 <= i < windows(bars@.len(), 2) ==> minus(
                    bars@[i + 1].open.val(),
                    (#[trigger] bars@[i]).close.val(),
                ) is Some,
            forall|i: int| #[trigger] gaps_up(bars@, i) ==> relative_gap(bars@, i) is Some,
        ensures
            match r {
                Some(v) => {
                    &&& exists|i: int| #[trigger] gaps_up(bars@, i) && relative_gap(bars@, i) == v.val()
                    &&& forall|i: int| #[trigger] gaps_up(bars@, i) ==> relative_gap(bars@, i)->0.units <= v@
                },
                None => forall|i: int| !#[trigger] gaps_up(bars@, i),
            },
    {
        let mut best: Option<Decimal> = None;
        let mut i: usize = 1;
        while i < bars.len()
            invariant
                1 <= i,
                i <= bars@.len() || bars@.len() == 0,
                match best {
                    Some(v) => {
                        &&& exists|j: int|
                            j + 1 < i && #[trigger] gaps_up(bars@, j) && relative_gap(bars@, j)
                                == v.val()
                        &&& forall|j: int|
                            j + 1 < i && #[trigger] gaps_up(bars@, j) ==> relative_gap(bars@, j)->0.units
                                <= v@
                    },
                    None => forall|j: int| j + 1 < i ==> !#[trigger] gaps_up(bars@, j),
                },
                forall|j: int|
                    0 <= j < windows(bars@.len(), 2) ==> minus(
                        bars@[j + 1].open.val(),
                        (#[trigger] bars@[j]).close.val(),
                    ) is Some,
                forall|j: int| #[trigger] gaps_up(bars@, j) ==> relative_gap(bars@, j) is Some,
            decreases bars@.len() - i,
        {
            let prev = &bars[i - 1];
            assert(bars@[i - 1] == *prev);
            let gap = bars[i].open - prev.close;
            let ghost before = best;
            assert(gaps_up(bars@, i - 1) == (gap@ > 0 && prev.close@ != 0));
            if gap > Decimal::zero() && !prev.close.is_zero() {
                let ratio = gap / prev.close;
                best =
                Some(
                    match best {
                        Some(v) => v.max(ratio),
                        None => ratio,
                    },
                );
                assert(gaps_up(bars@, i - 1) && relative_gap(bars@, i - 1) == ratio.val());
            }
            i += 1;
        }
        assert forall|j: int| #[trigger] gaps_up(bars@, j) implies j + 1 < i by {}
        best
    }

    /// Rate of change of volume trend: (second-half mean volume − first-half mean volume)
    /// divided by the first-half mean. Returns `None` for fewer than 4 bars or zero
    /// first-half mean.
    pub fn volume_trend_acceleration(bars: &[OhlcvBar]) -> (r: Option<Decimal>)
        requires
            ({
                let half = bars@.len() as int / 2;
                let first = mean(half, volumes(bars@.take(half)));
                let second = mean(bars@.len() - half, volumes(bars@.skip(half)));
                bars@.len() >= 4 ==> {
                    &&& first is Some
                    &&& !is_nought(first) ==> over(minus(second, first), first) is Some
                    &&& second is Some
                }
            }),
        ensures
            ({
                let half = bars@.len() as int / 2;
                let first = mean(half, volumes(bars@.take(half)));
                let second = mean(bars@.len() - half, volumes(bars@.skip(half)));
                yields(
                    r,
                    bars@.len() >= 4 && !is_nought(first),
                    over(minus(second, first), first),
                )
            }),
    {
        if bars.len() < 4 {
            return None;
        }
        let half: usize = bars.len() / 2;
        let early = slice_subrange(bars, 0, half);
        let late = slice_subrange(bars, half, bars.len());
        assert(early@ =~= bars@.take(half as int));
        assert(late@ =~= bars@.skip(half as int));
        let first_mean = Self::mean_volume(early)?;
        if first_mean.is_zero() {
            return None;
        }
        let second_mean = Self::mean_volume(late)?;
        Some((second_mean - first_mean) / first_mean)
    }

    /// Rate of change of body size: (second-half mean body − first-half mean body)
    /// divided by first-half mean body. Returns `None` for fewer than 4 bars or zero
    /// first-half mean body.
    pub fn body_acceleration(bars: &[OhlcvBar]) -> (r: Option<Decimal>)
        requires
            ({
                let half = bars@.len() as int / 2;
                let first = mean(half, bodies(bars@.take(half)));
                let second = mean(bars@.len() - half, bodies(bars@.skip(half)));
                bars@.len() >= 4 ==> {
                    &&& first is Some
                    &&& !is_nought(first) ==> over(minus(second, first), first) is Some
                }
            }),
        ensures
            ({
                let half = bars@.len() as int / 2;
                let first = mean(half, bodies(bars@.take(half)));
                let second = mean(bars@.len() - half, bodies(bars@.skip(half)));
                yields(
                    r,
                    bars@.len() >= 4 && !is_nought(first),
                    over(minus(second, first), first),
                )
            }),
    {
        if bars.len() < 4 {
            return None;
        }
        let half: usize = bars.len() / 2;
        let early = slice_subrange(bars, 0, half);
        let late = slice_subrange(bars, half, bars.len());
        assert(early@ =~= bars@.take(half as int));
        assert(late@ =~= bars@.skip(half as int));
        let first_mean = Self::average_body(early)?;
        if first_mean.is_zero() {
            return None;
        }
        let second_mean = Self::average_body(late)?;
        Some((second_mean - first_mean) / first_mean)
    }

    /// Mean absolute deviation of close prices from the VWAP across all bars.
    /// Returns `None` for an empty slice or zero total volume.
    pub fn vwap_deviation_mean(bars: &[OhlcvBar]) -> (r: Option<Decimal>)
        requires
            total(bars@.len() as int, volumes(bars@)) is Some,
            !is_nought(total(bars@.len() as int, volumes(bars@))) ==> {
                &&& weighted_close_val(bars@) is Some
                &&& mean(
                    bars@.len() as int,
                    close_deviations(bars@, weighted_close_val(bars@)->0),
                ) is Some
            },
        ensures
            yields(
                r,
                !is_nought(total(bars@.len() as int, volumes(bars@))),
                mean(
                    bars@.len() as int,
                    close_deviations(bars@, weighted_close_val(bars@)->0),
                ),
            ),
    {
        let vwap = Self::volume_weighted_close(bars)?;
        let sum = series::add_up(
            bars,
            |b: &OhlcvBar| -> (d: Decimal)
                requires
                    magnitude(minus(b.close.val(), vwap.val())) is Some,
                ensures
                    d.val() == magnitude(minus(b.close.val(), vwap.val()))
            { (b.close - vwap).abs() },
            Ghost(close_deviations(bars@, vwap.num())),
        );
        Some(sum / Decimal::count(bars.len() as u64))
    }

    /// Ratio of each bar's volume to the mean volume of the window.
    ///
    /// The entries are `None` where the mean volume is zero. Returns an empty `Vec`
    /// for an empty slice.
    pub fn mean_volume_ratio(bars: &[OhlcvBar]) -> (r: Vec<Option<Decimal>>)
        requires
            bars@.len() > 0 ==> mean(bars@.len() as int, volumes(bars@)) is Some,
            bars@.len() > 0 && !is_nought(mean(bars@.len() as int, volumes(bars@))) ==> all_some(
                bars@.len() as int,
                volume_shares(bars@, mean(bars@.len() as int, volumes(bars@))->0),
            ),
        ensures
            r@.len() == bars@.len(),
            forall|i: int|
                0 <= i < r@.len() ==> yields(
                    #[trigger] r@[i],
                    !is_nought(mean(bars@.len() as int, volumes(bars@))),
                    over(bars@[i].volume.val(), mean(bars@.len() as int, volumes(bars@))),
                ),
    {
        let mut out: Vec<Option<Decimal>> = Vec::new();
        let ghost m = mean(bars@.len() as int, volumes(bars@));
        if let Some(mean) = Self::mean_volume(bars) {
            let mut i: usize = 0;
            while i < bars.len()
                invariant
                    i <= bars@.len(),
                    out@.len() == i,
                    m == mean.val(),
                    !is_nought(m) ==> all_some(
                        bars@.len() as int,
                        volume_shares(bars@, mean.num()),
                    ),
                    forall|j: int|
                        0 <= j < i ==> yields(
                            #[trigger] out@[j],
                            !is_nought(m),
                            over(bars@[j].volume.val(), m),
                        ),
                decreases bars@.len() - i,
            {
                if mean.is_zero() {
                    out.push(None);
                } else {
                    assert(volume_shares(bars@, mean.num())(i as int) is Some);
                    out.push(Some(bars[i].volume / mean));
                }
                i += 1;
            }
        }
        out
    }
}

/// A drawdown that is in range was so at every bar.
proof fn lemma_drawdown_prefix(bars: Seq<OhlcvBar>, n: int, i: int)
    requires
        1 <= i <= n,
        drawdown(bars, n) is Some,
    ensures
        drawdown(bars, i) is Some,
    decreases n,
{
    if i < n {
        lemma_drawdown_prefix(bars, n - 1, i);
    }
}

} // verus!
