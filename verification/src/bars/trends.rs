//! Trends, weighted averages and deviations over bars.

use crate::bar::{option_view, OhlcvBar};
use crate::bars::{
    bodies, body_shares, close_change_values, close_deviations, close_locations, close_moves,
    close_span, closes, falling_volumes, has_vwap_count, last_bars, later_volumes, mean_vwap_val,
    nonzero_closes, range_deviations, range_volumes, ranged_bars, ranges, ranges_per_close,
    top_volumes, volume_changes, volume_shares, volumes, vwap_bars, vwap_deviations, vwaps,
    wick_totals,
};
use crate::bars::deviations::{lemma_listed, listed};
use crate::decimal::{
    hundredths, is_nought, larger, magnitude, minus, over, smaller, times, whole, yields, Decimal,
    Num,
};
use crate::moments::{slope_of, units_of, yields_slope};
use crate::scientific::Scientific;
use crate::series::{
    self, highest, last_highest, mean, mean_where, smoothed, tally, total, total_where, windows,
};
use vstd::prelude::*;
use vstd::slice::slice_subrange;

verus! {

/// The numbers of a sequence as a series.
pub open spec fn items(s: Seq<Num>) -> spec_fn(int) -> Option<Num> {
    |i: int| Some(s[i])
}

/// The least smoothing factor, `1e-9`.
pub open spec fn least_alpha() -> Num {
    Num { units: 10_000_000_000_000_000_000, places: 9 }
}

/// A smoothing factor held within `1e-9` and one.
pub open spec fn held_alpha(alpha: Num) -> Num {
    smaller(larger(Some(alpha), Some(least_alpha())), whole(1))->0
}

impl OhlcvBar {
    /// Ordinary least-squares slope of close prices across a slice of bars.
    ///
    /// Fits the line `close[i] = slope × i + intercept` using simple linear
    /// regression, where `i` is the bar index (0-based). A positive slope
    /// indicates an upward trend; negative indicates a downtrend.
    ///
    /// Returns `None` if the slice has fewer than 2 bars.
    pub fn linear_regression_slope(bars: &[OhlcvBar]) -> (r: Option<Scientific>)
        ensures
            yields_slope(r, bars@.len() >= 2, listed(bars@.len() as int, closes(bars@))),
    {
        if bars.len() < 2 {
            return None;
        }
        let list = Self::all_closes(bars);
        proof {
            lemma_listed(list@, bars@.len() as int, closes(bars@));
        }
        Some(slope_of(&units_of(list.as_slice())))
    }

    /// OLS linear regression slope of bar volumes over bar index.
    ///
    /// Positive means volume is trending up; negative means trending down.
    /// Returns `None` for fewer than 2 bars.
    pub fn volume_slope(bars: &[OhlcvBar]) -> (r: Option<Scientific>)
        ensures
            yields_slope(r, bars@.len() >= 2, listed(bars@.len() as int, volumes(bars@))),
    {
        if bars.len() < 2 {
            return None;
        }
        let list = Self::all_volumes(bars);
        proof {
            lemma_listed(list@, bars@.len() as int, volumes(bars@));
        }
        Some(slope_of(&units_of(list.as_slice())))
    }

    /// OLS linear regression slope of bar volume over bar index.
    ///
    /// A positive slope means volume is trending up; negative means trending
    /// down. Returns `None` for fewer than 2 bars.
    pub fn volume_trend_slope(bars: &[OhlcvBar]) -> (r: Option<Scientific>)
        ensures
            yields_slope(r, bars@.len() >= 2, listed(bars@.len() as int, volumes(bars@))),
    {
        Self::volume_slope(bars)
    }

    /// Mean CLV across a slice of bars; `None` for an empty slice or
    /// if any CLV cannot be computed.
    pub fn mean_clv(bars: &[OhlcvBar]) -> (r: Option<Decimal>)
        requires
            forall|i: int| 0 <= i < bars@.len() ==> (#[trigger] bars@[i]).range_val() is Some,
            bars@.len() > 0 && tally(bars@.len() as int, ranged_bars(bars@)) == bars@.len() ==> mean_where(
                bars@.len() as int,
                ranged_bars(bars@),
                close_locations(bars@),
            ) is Some,
        ensures
            yields(
                r,
                bars@.len() > 0 && tally(bars@.len() as int, ranged_bars(bars@)) == bars@.len(),
                mean_where(bars@.len() as int, ranged_bars(bars@), close_locations(bars@)),
            ),
    {
        let ranged: usize = series::count(
            bars,
            |b: &OhlcvBar| -> (r: bool)
                requires
                    b.range_val() is Some,
                ensures
                    r == (!is_nought(b.range_val()))
            { !b.range().is_zero() },
            Ghost(ranged_bars(bars@)),
        );
        if bars.len() == 0 || ranged < bars.len() {
            return None;
        }
        Self::bar_strength_index(bars)
    }

    /// Mean `(high - low) / close` — true range as a fraction of close price.
    /// Returns `None` for an empty slice or any bar with zero close.
    pub fn avg_true_range_pct(bars: &[OhlcvBar]) -> (r: Option<Decimal>)
        requires
            bars@.len() > 0 && tally(bars@.len() as int, nonzero_closes(bars@)) == bars@.len() ==> mean_where(
                bars@.len() as int,
                nonzero_closes(bars@),
                ranges_per_close(bars@),
            ) is Some,
        ensures
            yields(
                r,
                bars@.len() > 0 && tally(bars@.len() as int, nonzero_closes(bars@)) == bars@.len(),
                mean_where(bars@.len() as int, nonzero_closes(bars@), ranges_per_close(bars@)),
            ),
    {
        let closed: usize = series::count(
            bars,
            |b: &OhlcvBar| -> (r: bool)
                ensures
                    r == (b.close@ != 0)
            { !b.close.is_zero() },
            Ghost(nonzero_closes(bars@)),
        );
        if bars.len() == 0 || closed < bars.len() {
            return None;
        }
        Self::bar_spread_score(bars)
    }

    /// Exponential moving average of close prices over the slice.
    ///
    /// `alpha` is the smoothing factor in (0, 1]; higher values weight recent
    /// bars more. It is held within `1e-9` and one. Processes bars in order
    /// (oldest to newest). Returns `None` if the slice is empty.
    pub fn ema(bars: &[OhlcvBar], alpha: Decimal) -> (r: Option<Decimal>)
        requires
            bars@.len() > 0 ==> smoothed(bars@.len() as int, closes(bars@), held_alpha(alpha.num())) is Some,
        ensures
            yields(
                r,
                bars@.len() > 0,
                smoothed(bars@.len() as int, closes(bars@), held_alpha(alpha.num())),
            ),
    {
        let least = Decimal::billionth();
        let alpha = alpha.max(least).min(Decimal::whole(1));
        series::smooth(
            bars,
            |b: &OhlcvBar| -> (d: Decimal)
                ensures
                    d.val() == b.close.val()
            { b.close },
            alpha,
            Ghost(closes(bars@)),
        )
    }

    /// EMA (α=0.2) of body sizes |close - open| across bars.
    pub fn body_ema(bars: &[OhlcvBar]) -> (r: Option<Decimal>)
        requires
            bars@.len() > 0 ==> smoothed(bars@.len() as int, bodies(bars@), hundredths(20)->0) is Some,
        ensures
            yields(
                r,
                bars@.len() > 0,
                smoothed(bars@.len() as int, bodies(bars@), hundredths(20)->0),
            ),
    {
        series::smooth(
            bars,
            |b: &OhlcvBar| -> (d: Decimal)
                requires
                    b.body_val() is Some,
                ensures
                    d.val() == b.body_val()
            { b.body() },
            Decimal::hundredths(20),
            Ghost(bodies(bars@)),
        )
    }

    /// Total path length of close prices: sum of absolute consecutive changes.
    ///
    /// Measures how much the close price "travels" over the window. A high
    /// value relative to the net change indicates choppy price action.
    /// Returns `None` if fewer than 2 bars.
    pub fn price_path_length(bars: &[OhlcvBar]) -> (r: Option<Decimal>)
        requires
            bars@.len() >= 2 ==> total(windows(bars@.len(), 2), close_moves(bars@)) is Some,
        ensures
            yields(r, bars@.len() >= 2, total(windows(bars@.len(), 2), close_moves(bars@))),
    {
        if bars.len() < 2 {
            return None;
        }
        Some(
            series::add_up_pairs(
                bars,
                |p: &OhlcvBar, b: &OhlcvBar| -> (d: Decimal)
                    requires
                        magnitude(minus(b.close.val(), p.close.val())) is Some,
                    ensures
                        d.val() == magnitude(minus(b.close.val(), p.close.val()))
                { (b.close - p.close).abs() },
                Ghost(close_moves(bars@)),
            ),
        )
    }

    /// Volume-weighted average of bar range: `sum(range × volume) / sum(volume)`.
    ///
    /// Returns `None` when the slice is empty or total volume is zero.
    pub fn volume_weighted_range(bars: &[OhlcvBar]) -> (r: Option<Decimal>)
        requires
            total(bars@.len() as int, volumes(bars@)) is Some,
            !is_nought(total(bars@.len() as int, volumes(bars@))) ==> over(
                total(bars@.len() as int, range_volumes(bars@)),
                total(bars@.len() as int, volumes(bars@)),
            ) is Some,
        ensures
            yields(
                r,
                !is_nought(total(bars@.len() as int, volumes(bars@))),
                over(total(bars@.len() as int, range_volumes(bars@)), total(bars@.len() as int, volumes(bars@))),
            ),
    {
        let volume = series::add_up(
            bars,
            |b: &OhlcvBar| -> (d: Decimal)
                ensures
                    d.val() == b.volume.val()
            { b.volume },
            Ghost(volumes(bars@)),
        );
        if volume.is_zero() {
            return None;
        }
        let value = series::add_up(
            bars,
            |b: &OhlcvBar| -> (d: Decimal)
                requires
                    times(b.range_val(), b.volume.val()) is Some,
                ensures
                    d.val() == times(b.range_val(), b.volume.val())
            { b.range() * b.volume },
            Ghost(range_volumes(bars@)),
        );
        Some(value / volume)
    }

    /// Volume-weighted mean of close-to-close changes.
    /// Returns `None` for fewer than 2 bars or zero total volume.
    pub fn volume_weighted_close_change(bars: &[OhlcvBar]) -> (r: Option<Decimal>)
        requires
            total(windows(bars@.len(), 2), later_volumes(bars@)) is Some,
            !is_nought(total(windows(bars@.len(), 2), later_volumes(bars@))) ==> over(
                total(windows(bars@.len(), 2), close_change_values(bars@)),
                total(windows(bars@.len(), 2), later_volumes(bars@)),
            ) is Some,
        ensures
            yields(
                r,
                !is_nought(total(windows(bars@.len(), 2), later_volumes(bars@))),
                over(
                    total(windows(bars@.len(), 2), close_change_values(bars@)),
                    total(windows(bars@.len(), 2), later_volumes(bars@)),
                ),
            ),
    {
        let volume = series::add_up_pairs(
            bars,
            |p: &OhlcvBar, b: &OhlcvBar| -> (d: Decimal)
                ensures
                    d.val() == b.volume.val()
            { b.volume },
            Ghost(later_volumes(bars@)),
        );
        if volume.is_zero() {
            return None;
        }
        let value = series::add_up_pairs(
            bars,
            |p: &OhlcvBar, b: &OhlcvBar| -> (d: Decimal)
                requires
                    times(minus(b.close.val(), p.close.val()), b.volume.val()) is Some,
                ensures
                    d.val() == times(minus(b.close.val(), p.close.val()), b.volume.val())
            { (b.close - p.close) * b.volume },
            Ghost(close_change_values(bars@)),
        );
        Some(value / volume)
    }

    /// Volume oscillator: `(short_avg_vol − long_avg_vol) / long_avg_vol`.
    ///
    /// `short_n` bars are used for the short average and `long_n` for the long.
    /// Returns `None` if `long_n > bars.len()`, `short_n == 0`, `long_n == 0`,
    /// `short_n >= long_n`, or the long average is zero.
    ///
    /// A positive result means recent volume is above the longer-term average
    /// (expanding volume); negative means volume is contracting.
    pub fn volume_oscillator(bars: &[OhlcvBar], short_n: usize, long_n: usize) -> (r: Option<Decimal>)
        requires
            0 < short_n < long_n <= bars@.len() ==> {
                let short = mean(short_n as int, volumes(last_bars(bars@, short_n as int)));
                let long = mean(long_n as int, volumes(last_bars(bars@, long_n as int)));
                &&& short is Some
                &&& long is Some
                &&& !is_nought(long) ==> over(minus(short, long), long) is Some
            },
        ensures
            ({
                let short = mean(short_n as int, volumes(last_bars(bars@, short_n as int)));
                let long = mean(long_n as int, volumes(last_bars(bars@, long_n as int)));
                yields(
                    r,
                    0 < short_n < long_n <= bars@.len() && !is_nought(long),
                    over(minus(short, long), long),
                )
            }),
    {
        if short_n == 0 || long_n == 0 || short_n >= long_n || bars.len() < long_n {
            return None;
        }
        let n: usize = bars.len();
        let short = Self::mean_volume(slice_subrange(bars, n - short_n, n))?;
        let long = Self::mean_volume(slice_subrange(bars, n - long_n, n))?;
        if long.is_zero() {
            return None;
        }
        Some((short - long) / long)
    }

    /// Mean absolute deviation of bar VWAPs from the slice mean VWAP.
    ///
    /// Measures how spread the intrabar VWAPs are across the slice.
    /// Bars without a VWAP (gap-fill bars) are skipped.
    /// Returns `None` if fewer than 1 bar has a VWAP.
    pub fn vwap_deviation_avg(bars: &[OhlcvBar]) -> (r: Option<Decimal>)
        requires
            total_where(bars@.len() as int, vwap_bars(bars@), vwaps(bars@)) is Some,
            has_vwap_count(bars@) > 0 ==> {
                &&& mean_vwap_val(bars@) is Some
                &&& mean_where(
                    bars@.len() as int,
                    vwap_bars(bars@),
                    vwap_deviations(bars@, mean_vwap_val(bars@)->0),
                ) is Some
            },
        ensures
            yields(
                r,
                has_vwap_count(bars@) > 0,
                mean_where(
                    bars@.len() as int,
                    vwap_bars(bars@),
                    vwap_deviations(bars@, mean_vwap_val(bars@)->0),
                ),
            ),
    {
        let mean = Self::mean_vwap(bars)?;
        series::average(
            bars,
            |b: &OhlcvBar| -> (r: bool)
                ensures
                    r == b.vwap is Some
            { b.vwap.is_some() },
            |b: &OhlcvBar| -> (d: Decimal)
                requires
                    b.vwap is Some,
                    magnitude(minus(option_view(b.vwap), mean.val())) is Some,
                ensures
                    d.val() == magnitude(minus(option_view(b.vwap), mean.val()))
            { (b.vwap.unwrap() - mean).abs() },
            Ghost(vwap_bars(bars@)),
            Ghost(vwap_deviations(bars@, mean.num())),
        )
    }

    /// Mean absolute deviation of each bar's close from the overall close mean.
    /// Returns `None` for empty input.
    pub fn avg_close_deviation(bars: &[OhlcvBar]) -> (r: Option<Decimal>)
        requires
            bars@.len() > 0 ==> mean(bars@.len() as int, closes(bars@)) is Some,
            bars@.len() > 0 ==> mean(
                bars@.len() as int,
                close_deviations(bars@, mean(bars@.len() as int, closes(bars@))->0),
            ) is Some,
        ensures
            yields(
                r,
                bars@.len() > 0,
                mean(bars@.len() as int, close_deviations(bars@, mean(bars@.len() as int, closes(bars@))->0)),
            ),
    {
        let mean = Self::mean_close(bars)?;
        let sum = series::add_up(
            bars,
            |b: &OhlcvBar| -> (d: Decimal)
                requires
                    magnitude(minus(b.close.val(), mean.val())) is Some,
                ensures
                    d.val() == magnitude(minus(b.close.val(), mean.val()))
            { (b.close - mean).abs() },
            Ghost(close_deviations(bars@, mean.num())),
        );
        Some(sum / Decimal::count(bars.len() as u64))
    }

    /// Bar range mean deviation: mean absolute deviation of (high - low) from its mean.
    pub fn bar_range_mean_dev(bars: &[OhlcvBar]) -> (r: Option<Decimal>)
        requires
            bars@.len() > 0 ==> mean(bars@.len() as int, ranges(bars@)) is Some,
            bars@.len() > 0 ==> mean(
                bars@.len() as int,
                range_deviations(bars@, mean(bars@.len() as int, ranges(bars@))->0),
            ) is Some,
        ensures
            yields(
                r,
                bars@.len() > 0,
                mean(bars@.len() as int, range_deviations(bars@, mean(bars@.len() as int, ranges(bars@))->0)),
            ),
    {
        let mean = Self::mean_range(bars)?;
        let sum = series::add_up(
            bars,
            |b: &OhlcvBar| -> (d: Decimal)
                requires
                    b.range_val() is Some,
                    magnitude(minus(b.range_val(), mean.val())) is Some,
                ensures
                    d.val() == magnitude(minus(b.range_val(), mean.val()))
            { (b.range() - mean).abs() },
            Ghost(range_deviations(bars@, mean.num())),
        );
        Some(sum / Decimal::count(bars.len() as u64))
    }

    /// Net directional move: `(last_close − first_open) / first_open`; overall percentage
    /// move across all bars.
    pub fn net_directional_move(bars: &[OhlcvBar]) -> (r: Option<Decimal>)
        requires
            bars@.len() > 0 && bars@[0].open@ != 0 ==> over(
                minus(bars@[bars@.len() - 1].close.val(), bars@[0].open.val()),
                bars@[0].open.val(),
            ) is Some,
        ensures
            yields(
                r,
                bars@.len() > 0 && bars@[0].open@ != 0,
                over(
                    minus(bars@[bars@.len() - 1].close.val(), bars@[0].open.val()),
                    bars@[0].open.val(),
                ),
            ),
    {
        if bars.len() == 0 {
            return None;
        }
        let first_open = bars[0].open;
        if first_open.is_zero() {
            return None;
        }
        Some((bars[bars.len() - 1].close - first_open) / first_open)
    }

    /// Close trend strength: (last close - first close) / (max close - min close).
    pub fn close_trend_strength(bars: &[OhlcvBar]) -> (r: Option<Decimal>)
        requires
            bars@.len() >= 2 ==> close_span(bars@) is Some,
            bars@.len() >= 2 && !is_nought(close_span(bars@)) ==> over(
                minus(bars@[bars@.len() - 1].close.val(), bars@[0].close.val()),
                close_span(bars@),
            ) is Some,
        ensures
            yields(
                r,
                bars@.len() >= 2 && !is_nought(close_span(bars@)),
                over(
                    minus(bars@[bars@.len() - 1].close.val(), bars@[0].close.val()),
                    close_span(bars@),
                ),
            ),
    {
        if bars.len() < 2 {
            return None;
        }
        let span = Self::close_range(bars)?;
        if span.is_zero() {
            return None;
        }
        Some((bars[bars.len() - 1].close - bars[0].close) / span)
    }

    /// Volume trend ratio: last volume / mean volume.
    pub fn volume_trend_ratio(bars: &[OhlcvBar]) -> (r: Option<Decimal>)
        requires
            bars@.len() > 0 ==> mean(bars@.len() as int, volumes(bars@)) is Some,
            bars@.len() > 0 && !is_nought(mean(bars@.len() as int, volumes(bars@))) ==> over(
                bars@[bars@.len() - 1].volume.val(),
                mean(bars@.len() as int, volumes(bars@)),
            ) is Some,
        ensures
            yields(
                r,
                bars@.len() > 0 && !is_nought(mean(bars@.len() as int, volumes(bars@))),
                over(bars@[bars@.len() - 1].volume.val(), mean(bars@.len() as int, volumes(bars@))),
            ),
    {
        let mean = Self::mean_volume(bars)?;
        if mean.is_zero() {
            return None;
        }
        Some(bars[bars.len() - 1].volume / mean)
    }

    /// Mean ratio of each bar's volume to the maximum volume in the slice.
    /// Returns `None` for empty input or zero max volume.
    pub fn volume_ratio_to_max(bars: &[OhlcvBar]) -> (r: Option<Decimal>)
        requires
            ({
                let max = last_highest(bars@.len() as int, volumes(bars@));
                bars@.len() > 0 && !is_nought(max) ==> mean(
                    bars@.len() as int,
                    volume_shares(bars@, max->0),
                ) is Some
            }),
        ensures
            ({
                let max = last_highest(bars@.len() as int, volumes(bars@));
                yields(
                    r,
                    bars@.len() > 0 && !is_nought(max),
                    mean(bars@.len() as int, volume_shares(bars@, max->0)),
                )
            }),
    {
        let max = Self::max_bar_volume(bars)?;
        if max.is_zero() {
            return None;
        }
        let sum = series::add_up(
            bars,
            |b: &OhlcvBar| -> (d: Decimal)
                requires
                    over(b.volume.val(), max.val()) is Some,
                ensures
                    d.val() == over(b.volume.val(), max.val())
            { b.volume / max },
            Ghost(volume_shares(bars@, max.num())),
        );
        Some(sum / Decimal::count(bars.len() as u64))
    }

    /// Bar consolidation score: one minus the mean ratio of body size to range.
    /// Higher values indicate consolidation. Bars with zero range are skipped.
    /// Returns `None` if no eligible bars.
    pub fn bar_consolidation_score(bars: &[OhlcvBar]) -> (r: Option<Decimal>)
        requires
            forall|i: int| 0 <= i < bars@.len() ==> (#[trigger] bars@[i]).range_val() is Some,
            tally(bars@.len() as int, ranged_bars(bars@)) > 0 ==> minus(
                whole(1),
                mean_where(bars@.len() as int, ranged_bars(bars@), body_shares(bars@)),
            ) is Some,
        ensures
            yields(
                r,
                tally(bars@.len() as int, ranged_bars(bars@)) > 0,
                minus(whole(1), mean_where(bars@.len() as int, ranged_bars(bars@), body_shares(bars@))),
            ),
    {
        let mean = Self::mean_body_ratio(bars)?;
        Some(Decimal::whole(1) - mean)
    }

    /// Volume concentration ratio: fraction of total volume in the top-third of bars
    /// when sorted by volume (descending). Returns `None` for empty input or zero volume.
    pub fn volume_concentration_ratio(bars: &[OhlcvBar]) -> (r: Option<Decimal>)
        requires
            total(bars@.len() as int, volumes(bars@)) is Some,
            ({
                let top = top_volumes(bars@);
                bars@.len() > 0 && !is_nought(total(bars@.len() as int, volumes(bars@))) ==> over(
                    total(top.len() as int, items(top)),
                    total(bars@.len() as int, volumes(bars@)),
                ) is Some
            }),
        ensures
            ({
                let top = top_volumes(bars@);
                yields(
                    r,
                    bars@.len() > 0 && !is_nought(total(bars@.len() as int, volumes(bars@))),
                    over(total(top.len() as int, items(top)), total(bars@.len() as int, volumes(bars@))),
                )
            }),
    {
        if bars.len() == 0 {
            return None;
        }
        let all = series::add_up(
            bars,
            |b: &OhlcvBar| -> (d: Decimal)
                ensures
                    d.val() == b.volume.val()
            { b.volume },
            Ghost(volumes(bars@)),
        );
        if all.is_zero() {
            return None;
        }
        let top = Self::top_volumes(bars);
        let ghost highest = top_volumes(bars@);
        assert(highest.len() == top@.len());
        let sum = series::add_up(
            top.as_slice(),
            |v: &Decimal| -> (d: Decimal)
                ensures
                    d.val() == v.val()
            { *v },
            Ghost(items(highest)),
        );
        Some(sum / all)
    }

    /// Volume deceleration: mean of (vol[i] - vol[i-1]) for decreasing pairs, and zero
    /// where there are none.
    ///
    /// Returns `None` for fewer than 2 bars.
    pub fn volume_deceleration(bars: &[OhlcvBar]) -> (r: Option<Decimal>)
        requires
            tally(windows(bars@.len(), 2), falling_volumes(bars@)) > 0 ==> mean_where(
                windows(bars@.len(), 2),
                falling_volumes(bars@),
                volume_changes(bars@),
            ) is Some,
        ensures
            yields(
                r,
                bars@.len() >= 2,
                if tally(windows(bars@.len(), 2), falling_volumes(bars@)) > 0 {
                    mean_where(
                        windows(bars@.len(), 2),
                        falling_volumes(bars@),
                        volume_changes(bars@),
                    )
                } else {
                    whole(0)
                },
            ),
    {
        if bars.len() < 2 {
            return None;
        }
        let mean = series::average_pairs(
            bars,
            |p: &OhlcvBar, b: &OhlcvBar| -> (r: bool)
                ensures
                    r == (b.volume@ < p.volume@)
            { b.volume < p.volume },
            |p: &OhlcvBar, b: &OhlcvBar| -> (d: Decimal)
                requires
                    minus(b.volume.val(), p.volume.val()) is Some,
                ensures
                    d.val() == minus(b.volume.val(), p.volume.val())
            { b.volume - p.volume },
            Ghost(falling_volumes(bars@)),
            Ghost(volume_changes(bars@)),
        );
        match mean {
            Some(m) => Some(m),
            None => Some(Decimal::zero()),
        }
    }

    /// Ratio of total shadow length to body length across bars.
    ///
    /// Returns `None` for an empty slice or where no bar has a body.
    pub fn shadow_body_ratio(bars: &[OhlcvBar]) -> (r: Option<Decimal>)
        requires
            total(bars@.len() as int, wick_totals(bars@)) is Some,
            total(bars@.len() as int, bodies(bars@)) is Some,
            !is_nought(total(bars@.len() as int, bodies(bars@))) ==> over(
                total(bars@.len() as int, wick_totals(bars@)),
                total(bars@.len() as int, bodies(bars@)),
            ) is Some,
        ensures
            yields(
                r,
                !is_nought(total(bars@.len() as int, bodies(bars@))),
                over(total(bars@.len() as int, wick_totals(bars@)), total(bars@.len() as int, bodies(bars@))),
            ),
    {
        let shadow = Self::wicks_sum(bars);
        let body = series::add_up(
            bars,
            |b: &OhlcvBar| -> (d: Decimal)
                requires
                    b.body_val() is Some,
                ensures
                    d.val() == b.body_val()
            { b.body() },
            Ghost(bodies(bars@)),
        );
        if body.is_zero() {
            return None;
        }
        Some(shadow / body)
    }
}

} // verus!
